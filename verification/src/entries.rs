//! The entry model and the selection pipeline: hidden-name filtering, the
//! entry-count limit, and the path-depth filter, in that order.

use vstd::prelude::*;

verus! {

/// The file-type categories that the classify marker distinguishes.
#[derive(Clone, Copy, PartialEq, Eq, Structural, Debug)]
pub enum FileKind {
    Regular,
    Dir,
    Symlink,
    Other,
}

/// The three timestamps of an entry, as seconds since the Unix epoch (UTC).
#[derive(Clone, Copy, PartialEq, Eq, Structural, Debug)]
pub struct EntryTimes {
    pub atime: i64,
    pub mtime: i64,
    pub ctime: i64,
}

/// One directory child, as the selection and rendering pipeline sees it.
///
/// `name` is the entry's own name (the last path component, lossily converted
/// to text where the raw name is not valid text); `components` is the number
/// of components of the entry's full path (directory prefix plus name).
/// `file_type` and `times` are `None` where fetching them from the filesystem
/// failed; the renderer turns such a missing value into an error only when an
/// option actually asks for it.
pub struct DirEntryInfo {
    pub name: String,
    pub components: usize,
    pub file_type: Option<FileKind>,
    pub times: Option<EntryTimes>,
}

impl Clone for DirEntryInfo {
    fn clone(&self) -> (r: Self)
        ensures
            r == *self,
    {
        DirEntryInfo {
            name: self.name.clone(),
            components: self.components,
            file_type: self.file_type,
            times: self.times,
        }
    }
}

/// Whether an entry with this name survives hidden-name filtering.
///
/// In almost-all mode only the literal `.` and `..` names are dropped; in the
/// default mode every name that begins with a dot is dropped.
pub open spec fn keep_name(name: Seq<char>, show_almost_all: bool) -> bool {
    if show_almost_all {
        !(name == seq!['.'] || name == seq!['.', '.'])
    } else {
        !(name.len() > 0 && name[0] == '.')
    }
}

pub open spec fn hidden_pred(show_almost_all: bool) -> spec_fn(DirEntryInfo) -> bool {
    |e: DirEntryInfo| keep_name(e.name@, show_almost_all)
}

/// Truncation to at most `limit` entries; no limit means no truncation.
pub open spec fn limit_applied(s: Seq<DirEntryInfo>, limit: Option<usize>) -> Seq<DirEntryInfo> {
    match limit {
        Option::None => s,
        Option::Some(n) => if s.len() <= n {
            s
        } else {
            s.take(n as int)
        },
    }
}

pub open spec fn depth_pred(max_depth: usize) -> spec_fn(DirEntryInfo) -> bool {
    |e: DirEntryInfo| e.components <= max_depth
}

/// Removal of every entry whose full path has more than `max_depth`
/// components; no bound means no removal.
pub open spec fn depth_applied(s: Seq<DirEntryInfo>, max_depth: Option<usize>) -> Seq<
    DirEntryInfo,
> {
    match max_depth {
        Option::None => s,
        Option::Some(d) => s.filter(depth_pred(d)),
    }
}

/// The whole selection pipeline: hidden-name filtering first, then the count
/// limit, then the depth filter, each preserving the order of what it keeps.
pub open spec fn read_entries_spec(
    raw: Seq<DirEntryInfo>,
    show_almost_all: bool,
    max_depth: Option<usize>,
    limit: Option<usize>,
) -> Seq<DirEntryInfo> {
    depth_applied(limit_applied(raw.filter(hidden_pred(show_almost_all)), limit), max_depth)
}

/// Whether an entry with this name survives hidden-name filtering.
fn keeps_name(name: &String, show_almost_all: bool) -> (r: bool)
    ensures
        r == keep_name(name@, show_almost_all),
{
    if show_almost_all {
        let dot = crate::str_is(name.as_str(), ".");
        let dotdot = crate::str_is(name.as_str(), "..");
        proof {
            reveal_strlit(".");
            reveal_strlit("..");
            assert("."@ =~= seq!['.']);
            assert(".."@ =~= seq!['.', '.']);
        }
        !(dot || dotdot)
    } else {
        let s = name.as_str();
        let n = s.unicode_len();
        if n == 0 {
            true
        } else {
            let c = s.get_char(0);
            !(c == '.')
        }
    }
}

/// The selection pipeline on a raw directory listing: drop hidden names per
/// the mode, truncate to the count limit, then drop entries whose full path
/// has more components than the depth bound, never reordering what is kept.
pub fn read_entries(
    raw: &Vec<DirEntryInfo>,
    show_almost_all: bool,
    max_depth: Option<usize>,
    limit: Option<usize>,
) -> (r: Vec<DirEntryInfo>)
    ensures
        r@ == read_entries_spec(raw@, show_almost_all, max_depth, limit),
{
    let ghost hp = hidden_pred(show_almost_all);
    let mut kept: Vec<DirEntryInfo> = Vec::new();
    let mut i: usize = 0;
    while i < raw.len()
        invariant
            i <= raw@.len(),
            kept@ == raw@.take(i as int).filter(hp),
            hp == hidden_pred(show_almost_all),
        decreases raw@.len() - i,
    {
        let e = &raw[i];
        let keep = keeps_name(&e.name, show_almost_all);
        proof {
            reveal(Seq::filter);
            assert(raw@.take(i + 1).drop_last() =~= raw@.take(i as int));
            assert(raw@.take(i + 1).last() == raw@[i as int]);
        }
        if keep {
            kept.push(e.clone());
            proof {
                assert(kept@ =~= raw@.take(i + 1).filter(hp));
            }
        } else {
            proof {
                assert(kept@ =~= raw@.take(i + 1).filter(hp));
            }
        }
        i = i + 1;
    }
    proof {
        assert(raw@.take(raw@.len() as int) =~= raw@);
    }
    if let Option::Some(n) = limit {
        kept.truncate(n);
        proof {
            let f = raw@.filter(hp);
            if f.len() > n {
                assert(kept@ =~= limit_applied(f, limit));
            }
        }
    }
    let ghost after_limit = limit_applied(raw@.filter(hp), limit);
    if let Option::Some(d) = max_depth {
        let ghost dp = depth_pred(d);
        let mut out: Vec<DirEntryInfo> = Vec::new();
        let mut j: usize = 0;
        while j < kept.len()
            invariant
                j <= kept@.len(),
                kept@ == after_limit,
                out@ == after_limit.take(j as int).filter(dp),
                dp == depth_pred(d),
            decreases kept@.len() - j,
        {
            let e = &kept[j];
            proof {
                reveal(Seq::filter);
                assert(after_limit.take(j + 1).drop_last() =~= after_limit.take(j as int));
                assert(after_limit.take(j + 1).last() == after_limit[j as int]);
            }
            if e.components <= d {
                out.push(e.clone());
                proof {
                    assert(out@ =~= after_limit.take(j + 1).filter(dp));
                }
            } else {
                proof {
                    assert(out@ =~= after_limit.take(j + 1).filter(dp));
                }
            }
            j = j + 1;
        }
        proof {
            assert(after_limit.take(after_limit.len() as int) =~= after_limit);
        }
        out
    } else {
        kept
    }
}

/// `a` is a subsequence of `b`: what remains of `b` after deleting some of
/// its elements, with the order of the rest kept.
pub open spec fn is_subseq_of<T>(a: Seq<T>, b: Seq<T>) -> bool
    decreases b.len(),
{
    if a.len() == 0 {
        true
    } else if b.len() == 0 {
        false
    } else {
        (a.last() == b.last() && is_subseq_of(a.drop_last(), b.drop_last())) || is_subseq_of(
            a,
            b.drop_last(),
        )
    }
}

pub proof fn lemma_subseq_refl<T>(s: Seq<T>)
    ensures
        is_subseq_of(s, s),
    decreases s.len(),
{
    if s.len() > 0 {
        lemma_subseq_refl(s.drop_last());
    }
}

pub proof fn lemma_subseq_trans<T>(a: Seq<T>, b: Seq<T>, c: Seq<T>)
    requires
        is_subseq_of(a, b),
        is_subseq_of(b, c),
    ensures
        is_subseq_of(a, c),
    decreases a.len() + b.len() + c.len(),
{
    if a.len() == 0 || b.len() == 0 || c.len() == 0 {
    } else {
        if is_subseq_of(b, c.drop_last()) {
            lemma_subseq_trans(a, b, c.drop_last());
        } else {
            assert(b.last() == c.last() && is_subseq_of(b.drop_last(), c.drop_last()));
            if is_subseq_of(a, b.drop_last()) {
                lemma_subseq_trans(a, b.drop_last(), c.drop_last());
            } else {
                assert(a.last() == b.last() && is_subseq_of(a.drop_last(), b.drop_last()));
                lemma_subseq_trans(a.drop_last(), b.drop_last(), c.drop_last());
            }
        }
    }
}

/// What a filter keeps is a subsequence of what it was given.
pub proof fn lemma_filter_is_subseq<T>(s: Seq<T>, pred: spec_fn(T) -> bool)
    ensures
        is_subseq_of(s.filter(pred), s),
    decreases s.len(),
{
    reveal(Seq::filter);
    if s.len() == 0 {
    } else {
        lemma_filter_is_subseq(s.drop_last(), pred);
        if pred(s.last()) {
            let f = s.filter(pred);
            assert(f == s.drop_last().filter(pred).push(s.last()));
            assert(f.last() == s.last());
            assert(f.drop_last() =~= s.drop_last().filter(pred));
        }
    }
}

/// A prefix is a subsequence of the whole.
pub proof fn lemma_take_is_subseq<T>(s: Seq<T>, n: int)
    requires
        0 <= n <= s.len(),
    ensures
        is_subseq_of(s.take(n), s),
    decreases s.len(),
{
    if n == s.len() {
        assert(s.take(n) =~= s);
        lemma_subseq_refl(s);
    } else {
        assert(s.drop_last().take(n) =~= s.take(n));
        lemma_take_is_subseq(s.drop_last(), n);
    }
}

/// Law: the selected entries are a subsequence of the raw listing: each one
/// comes from the listing, and they keep the listing's order.
pub proof fn lemma_selected_subsequence(
    raw: Seq<DirEntryInfo>,
    show_almost_all: bool,
    max_depth: Option<usize>,
    limit: Option<usize>,
)
    ensures
        is_subseq_of(read_entries_spec(raw, show_almost_all, max_depth, limit), raw),
{
    let f = raw.filter(hidden_pred(show_almost_all));
    let l = limit_applied(f, limit);
    let r = read_entries_spec(raw, show_almost_all, max_depth, limit);
    lemma_filter_is_subseq(raw, hidden_pred(show_almost_all));
    match limit {
        Option::Some(n) => {
            if f.len() > n {
                lemma_take_is_subseq(f, n as int);
            } else {
                lemma_subseq_refl(f);
            }
        },
        Option::None => {
            lemma_subseq_refl(f);
        },
    }
    match max_depth {
        Option::Some(d) => {
            lemma_filter_is_subseq(l, depth_pred(d));
        },
        Option::None => {
            lemma_subseq_refl(l);
        },
    }
    lemma_subseq_trans(r, l, f);
    lemma_subseq_trans(r, f, raw);
}

/// Law: every selected entry is one of the raw listing's entries, and no
/// entry that the hidden filter drops is ever selected, whatever the other
/// options are.
pub proof fn lemma_selected_subset(
    raw: Seq<DirEntryInfo>,
    show_almost_all: bool,
    max_depth: Option<usize>,
    limit: Option<usize>,
)
    ensures
        forall|e: DirEntryInfo|
            #[trigger] read_entries_spec(raw, show_almost_all, max_depth, limit).contains(e)
                ==> raw.contains(e) && keep_name(e.name@, show_almost_all),
{
    let hp = hidden_pred(show_almost_all);
    let f = raw.filter(hp);
    let l = limit_applied(f, limit);
    let r = read_entries_spec(raw, show_almost_all, max_depth, limit);
    assert forall|e: DirEntryInfo| #[trigger] r.contains(e) implies raw.contains(e) && keep_name(
        e.name@,
        show_almost_all,
    ) by {
        if max_depth is Some {
            l.lemma_filter_contains_rev(depth_pred(max_depth.unwrap()), e);
        }
        assert(l.contains(e));
        let j = choose|j: int| 0 <= j < l.len() && l[j] == e;
        assert(f.contains(e)) by {
            match limit {
                Option::Some(n) => {
                    if f.len() > n {
                        assert(f.take(n as int)[j] == f[j]);
                    }
                },
                Option::None => {},
            }
        }
        let k = choose|k: int| 0 <= k < f.len() && f[k] == e;
        raw.lemma_filter_pred(hp, k);
        raw.lemma_filter_contains_rev(hp, e);
    }
}

/// Law: in the default mode (neither all nor almost-all), no selected entry's
/// name begins with a dot.
pub proof fn lemma_default_hides_dot_names(
    raw: Seq<DirEntryInfo>,
    max_depth: Option<usize>,
    limit: Option<usize>,
)
    ensures
        forall|e: DirEntryInfo|
            #[trigger] read_entries_spec(raw, false, max_depth, limit).contains(e) ==> !(
            e.name@.len() > 0 && e.name@[0] == '.'),
{
    lemma_selected_subset(raw, false, max_depth, limit);
}

/// Law: in almost-all mode no selected entry is named exactly `.` or `..`.
pub proof fn lemma_almost_all_excludes_self_parent(
    raw: Seq<DirEntryInfo>,
    max_depth: Option<usize>,
    limit: Option<usize>,
)
    ensures
        forall|e: DirEntryInfo|
            #[trigger] read_entries_spec(raw, true, max_depth, limit).contains(e) ==> e.name@
                != seq!['.'] && e.name@ != seq!['.', '.'],
{
    lemma_selected_subset(raw, true, max_depth, limit);
}

/// Law: in almost-all mode, with no count limit and no depth bound, every raw
/// entry other than `.` and `..` is selected, dot-prefixed names included.
pub proof fn lemma_almost_all_keeps_others(raw: Seq<DirEntryInfo>)
    ensures
        forall|i: int|
            0 <= i < raw.len() && keep_name(raw[i].name@, true) ==> read_entries_spec(
                raw,
                true,
                Option::None,
                Option::None,
            ).contains(#[trigger] raw[i]),
{
    let hp = hidden_pred(true);
    assert forall|i: int| 0 <= i < raw.len() && keep_name(raw[i].name@, true) implies
        read_entries_spec(raw, true, Option::None, Option::None).contains(raw[i]) by {
        raw.lemma_filter_contains(hp, i);
    }
}

/// Law: with `limit` set to `n`, at most `n` entries are selected, whatever
/// the other options are.
pub proof fn lemma_limit_bounds_len(
    raw: Seq<DirEntryInfo>,
    show_almost_all: bool,
    max_depth: Option<usize>,
    n: usize,
)
    ensures
        read_entries_spec(raw, show_almost_all, max_depth, Option::Some(n)).len() <= n,
{
    let f = raw.filter(hidden_pred(show_almost_all));
    let l = limit_applied(f, Option::Some(n));
    match max_depth {
        Option::Some(d) => {
            l.lemma_filter_len(depth_pred(d));
        },
        Option::None => {},
    }
}

/// Law: with `max_depth` set to `d`, every selected entry's full path has at
/// most `d` components, and the selection is, in order, a subsequence of what
/// the hidden filter and the count limit had already kept.
pub proof fn lemma_depth_bound(
    raw: Seq<DirEntryInfo>,
    show_almost_all: bool,
    d: usize,
    limit: Option<usize>,
)
    ensures
        forall|e: DirEntryInfo|
            #[trigger] read_entries_spec(raw, show_almost_all, Option::Some(d), limit).contains(e)
                ==> e.components <= d,
        is_subseq_of(
            read_entries_spec(raw, show_almost_all, Option::Some(d), limit),
            limit_applied(raw.filter(hidden_pred(show_almost_all)), limit),
        ),
{
    let l = limit_applied(raw.filter(hidden_pred(show_almost_all)), limit);
    let r = read_entries_spec(raw, show_almost_all, Option::Some(d), limit);
    lemma_filter_is_subseq(l, depth_pred(d));
    assert forall|e: DirEntryInfo| #[trigger] r.contains(e) implies e.components <= d by {
        let j = choose|j: int| 0 <= j < r.len() && r[j] == e;
        l.lemma_filter_pred(depth_pred(d), j);
    }
}

} // verus!
