//! Rendering: one line of display text per selected entry.

use vstd::prelude::*;

use crate::LsError;
use crate::args::TimeSort;
use crate::entries::DirEntryInfo;
use crate::entries::EntryTimes;
use crate::entries::FileKind;

verus! {

/// A character is ASCII graphic: a printable character other than space.
pub open spec fn is_graphic(c: char) -> bool {
    0x21 <= c as u32 <= 0x7e
}

/// The digit character for one octal digit value.
pub open spec fn oct_digit(d: u32) -> char
    recommends
        d < 8,
{
    if d == 0 {
        '0'
    } else if d == 1 {
        '1'
    } else if d == 2 {
        '2'
    } else if d == 3 {
        '3'
    } else if d == 4 {
        '4'
    } else if d == 5 {
        '5'
    } else if d == 6 {
        '6'
    } else {
        '7'
    }
}

/// How one character is displayed under escaping: a graphic character passes
/// through; any other character becomes a backslash followed by the
/// three-digit octal code of its low byte.
pub open spec fn escape_char(c: char) -> Seq<char> {
    if is_graphic(c) {
        seq![c]
    } else {
        let b = (c as u32) % 256;
        seq!['\\', oct_digit(b / 64), oct_digit((b / 8) % 8), oct_digit(b % 8)]
    }
}

/// A whole name under escaping, character by character in order.
pub open spec fn escape_seq(s: Seq<char>) -> Seq<char>
    decreases s.len(),
{
    if s.len() == 0 {
        Seq::empty()
    } else {
        escape_seq(s.drop_last()) + escape_char(s.last())
    }
}

/// Relies on `String::push` of std: it appends the given character to the
/// end of the string.
pub assume_specification[ String::push ](s: &mut String, ch: char)
    ensures
        final(s)@ == old(s)@.push(ch),
;

fn oct_char(d: u32) -> (c: char)
    requires
        d < 8,
    ensures
        c == oct_digit(d),
{
    if d == 0 {
        '0'
    } else if d == 1 {
        '1'
    } else if d == 2 {
        '2'
    } else if d == 3 {
        '3'
    } else if d == 4 {
        '4'
    } else if d == 5 {
        '5'
    } else if d == 6 {
        '6'
    } else {
        '7'
    }
}

/// The name with every non-graphic character replaced by its octal escape.
pub fn escape_string(s: &str) -> (r: String)
    ensures
        r@ == escape_seq(s@),
{
    let n = s.unicode_len();
    let mut out = String::new();
    let mut i: usize = 0;
    while i < n
        invariant
            i <= n,
            n == s@.len(),
            out@ == escape_seq(s@.take(i as int)),
        decreases n - i,
    {
        let c = s.get_char(i);
        let ghost prefix = s@.take(i as int);
        proof {
            assert(s@.take(i + 1).drop_last() =~= prefix);
            assert(s@.take(i + 1).last() == c);
        }
        let v: u32 = c as u32;
        if 0x21 <= v && v <= 0x7e {
            out.push(c);
            proof {
                assert(out@ =~= escape_seq(prefix) + escape_char(c));
            }
        } else {
            let b: u32 = v % 256;
            out.push('\\');
            out.push(oct_char(b / 64));
            out.push(oct_char((b / 8) % 8));
            out.push(oct_char(b % 8));
            proof {
                assert(out@ =~= escape_seq(prefix) + escape_char(c));
            }
        }
        i = i + 1;
    }
    proof {
        assert(s@.take(n as int) =~= s@);
    }
    out
}

/// The display text of a timestamp, given as seconds since the Unix epoch.
pub uninterp spec fn time_display_of(secs: int) -> Seq<char>;

/// Relies on chrono's `DateTime::<Utc>::from_timestamp` and its `%b %e %R`
/// formatting: for a given count of seconds since the Unix epoch the text is
/// fixed (UTC calendar, English month abbreviation, space-padded day, then
/// hour and minute), and an out-of-range count gives an empty text.
#[verifier::external_body]
fn format_time(secs: i64) -> (r: String)
    ensures
        r@ == time_display_of(secs as int),
{
    match chrono::DateTime::<chrono::Utc>::from_timestamp(secs, 0) {
        Some(dt) => dt.format("%b %e %R").to_string(),
        None => String::new(),
    }
}

/// The classify marker for a file type: `/` for a directory, `@` for a
/// symlink, a space for a regular file and for anything else.
pub open spec fn classify_char(k: FileKind) -> char {
    match k {
        FileKind::Dir => '/',
        FileKind::Symlink => '@',
        FileKind::Regular => ' ',
        FileKind::Other => ' ',
    }
}

/// The timestamp that the selected time kind picks out of an entry.
pub open spec fn selected_time(t: EntryTimes, k: TimeSort) -> i64 {
    match k {
        TimeSort::Atime => t.atime,
        TimeSort::Mtime => t.mtime,
        TimeSort::Ctime => t.ctime,
    }
}

/// The name part of a line: escaped when asked for, otherwise raw.
pub open spec fn name_display(name: Seq<char>, escape: bool) -> Seq<char> {
    if escape {
        escape_seq(name)
    } else {
        name
    }
}

/// Whether the entry carries everything the options ask the renderer for.
pub open spec fn renderable(e: DirEntryInfo, time: Option<TimeSort>, classify: bool) -> bool {
    &&& classify ==> e.file_type is Some
    &&& time is Some ==> e.times is Some
}

/// The full line for one entry, without the terminating newline: the
/// displayed name, then the classify marker if asked for, then two spaces
/// and the selected timestamp's display if asked for.
pub open spec fn render_line_spec(
    e: DirEntryInfo,
    escape: bool,
    time: Option<TimeSort>,
    classify: bool,
) -> Seq<char>
    recommends
        renderable(e, time, classify),
{
    name_display(e.name@, escape) + (if classify {
        seq![classify_char(e.file_type.unwrap())]
    } else {
        Seq::<char>::empty()
    }) + (match time {
        Option::Some(k) => seq![' ', ' '] + time_display_of(
            selected_time(e.times.unwrap(), k) as int,
        ),
        Option::None => Seq::<char>::empty(),
    })
}

/// One output line for one entry. The result is `Ok` exactly when the entry
/// carries the file type and timestamps that the options ask for; a missing
/// one is an I/O failure of the metadata fetch and is reported as such.
pub fn render_entry(
    e: &DirEntryInfo,
    escape: bool,
    time: Option<TimeSort>,
    classify: bool,
) -> (r: Result<String, LsError>)
    ensures
        (r is Ok) == renderable(*e, time, classify),
        r matches Ok(line) ==> line@ == render_line_spec(*e, escape, time, classify),
        r is Err ==> r == Err::<String, LsError>(LsError::Io),
{
    let mut line: String = if escape {
        escape_string(e.name.as_str())
    } else {
        e.name.clone()
    };
    if classify {
        let marker: char = match e.file_type {
            Option::Some(FileKind::Dir) => '/',
            Option::Some(FileKind::Symlink) => '@',
            Option::Some(FileKind::Regular) => ' ',
            Option::Some(FileKind::Other) => ' ',
            Option::None => {
                return Err(LsError::Io);
            },
        };
        line.push(marker);
    }
    if let Option::Some(k) = time {
        let t: EntryTimes = match e.times {
            Option::Some(t) => t,
            Option::None => {
                return Err(LsError::Io);
            },
        };
        let secs: i64 = match k {
            TimeSort::Atime => t.atime,
            TimeSort::Mtime => t.mtime,
            TimeSort::Ctime => t.ctime,
        };
        let ts = format_time(secs);
        line.push(' ');
        line.push(' ');
        line.append(ts.as_str());
    }
    proof {
        assert(line@ =~= render_line_spec(*e, escape, time, classify));
    }
    Ok(line)
}

/// One output line per selected entry, in input order. The result is `Ok`
/// exactly when every entry carries what the options ask for; the first entry
/// that does not stops the rendering with the I/O error, as fetching its
/// metadata failed.
pub fn list_dir(
    entries: &Vec<DirEntryInfo>,
    escape: bool,
    time: Option<TimeSort>,
    classify: bool,
) -> (r: Result<Vec<String>, LsError>)
    ensures
        r matches Ok(lines) ==> {
            &&& lines@.len() == entries@.len()
            &&& forall|i: int|
                0 <= i < entries@.len() ==> (#[trigger] lines@[i])@ == render_line_spec(
                    entries@[i],
                    escape,
                    time,
                    classify,
                )
        },
        (r is Ok) == (forall|i: int|
            0 <= i < entries@.len() ==> renderable(#[trigger] entries@[i], time, classify)),
        r is Err ==> r == Err::<Vec<String>, LsError>(LsError::Io),
{
    let mut lines: Vec<String> = Vec::new();
    let mut i: usize = 0;
    while i < entries.len()
        invariant
            i <= entries@.len(),
            lines@.len() == i,
            forall|j: int| 0 <= j < i ==> renderable(#[trigger] entries@[j], time, classify),
            forall|j: int|
                0 <= j < i ==> (#[trigger] lines@[j])@ == render_line_spec(
                    entries@[j],
                    escape,
                    time,
                    classify,
                ),
        decreases entries@.len() - i,
    {
        match render_entry(&entries[i], escape, time, classify) {
            Result::Ok(line) => {
                lines.push(line);
            },
            Result::Err(err) => {
                return Err(err);
            },
        }
        i = i + 1;
    }
    Ok(lines)
}

/// Law: escaping a name made only of graphic characters leaves it unchanged.
pub proof fn lemma_escape_all_graphic(s: Seq<char>)
    requires
        forall|i: int| 0 <= i < s.len() ==> is_graphic(#[trigger] s[i]),
    ensures
        escape_seq(s) == s,
    decreases s.len(),
{
    if s.len() == 0 {
        assert(escape_seq(s) =~= s);
    } else {
        lemma_escape_all_graphic(s.drop_last());
        assert(is_graphic(s.last()));
        assert(escape_seq(s) =~= s.drop_last() + seq![s.last()]);
        assert(s.drop_last() + seq![s.last()] =~= s);
    }
}

/// Every character of escaped text is graphic: graphic characters pass
/// through, and an escape is a backslash and three octal digits.
pub proof fn lemma_escape_all_chars_graphic(s: Seq<char>)
    ensures
        forall|i: int| 0 <= i < escape_seq(s).len() ==> is_graphic(#[trigger] escape_seq(s)[i]),
    decreases s.len(),
{
    if s.len() > 0 {
        lemma_escape_all_chars_graphic(s.drop_last());
        let prefix = escape_seq(s.drop_last());
        let tail = escape_char(s.last());
        assert forall|i: int| 0 <= i < escape_seq(s).len() implies is_graphic(
            #[trigger] escape_seq(s)[i],
        ) by {
            if i >= prefix.len() {
                assert(escape_seq(s)[i] == tail[i - prefix.len()]);
                assert(is_graphic('\\'));
                assert(forall|d: u32| is_graphic(#[trigger] oct_digit(d)));
            }
        }
    }
}

/// Law: escaping is idempotent: escaped text is all graphic, so escaping it
/// again leaves it unchanged.
pub proof fn lemma_escape_idempotent(s: Seq<char>)
    ensures
        escape_seq(escape_seq(s)) == escape_seq(s),
{
    lemma_escape_all_chars_graphic(s);
    lemma_escape_all_graphic(escape_seq(s));
}

/// Law: escaping a single non-graphic character gives exactly a backslash and
/// the three octal digits of its low byte.
pub proof fn lemma_escape_control(c: char)
    requires
        !is_graphic(c),
    ensures
        escape_seq(seq![c]) == seq![
            '\\',
            oct_digit(((c as u32) % 256) / 64),
            oct_digit((((c as u32) % 256) / 8) % 8),
            oct_digit(((c as u32) % 256) % 8),
        ],
{
    assert(seq![c].drop_last() =~= Seq::<char>::empty());
    assert(escape_seq(Seq::<char>::empty()) =~= Seq::<char>::empty());
    assert(escape_seq(seq![c]) =~= escape_char(c));
}

/// Law: with the classify option on, the character right after the displayed
/// name is the entry's classify marker, and it ends the line when no time
/// field follows.
pub proof fn lemma_classify_marker(e: DirEntryInfo, escape: bool, time: Option<TimeSort>)
    requires
        e.file_type is Some,
    ensures
        render_line_spec(e, escape, time, true).len() > name_display(e.name@, escape).len(),
        render_line_spec(e, escape, time, true)[name_display(e.name@, escape).len() as int]
            == classify_char(e.file_type.unwrap()),
        time is None ==> render_line_spec(e, escape, time, true).last() == classify_char(
            e.file_type.unwrap(),
        ),
{
}

} // verus!
