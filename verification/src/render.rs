//! The text report of a scan, as the command-line tool prints it.
use vstd::prelude::*;
use crate::scan::{CleanupCandidate, ScanError, ScanReport, SizedEntry};
use crate::cleanup::reason_text;
use crate::size_format::{format_bytes, human_size};
use crate::text::{decimal, push_char, push_decimal};

verus! {

/// `s` right-aligned in a field of `width` characters (padded with spaces on
/// the left; longer text is kept whole).
pub open spec fn right_aligned(s: Seq<char>, width: nat) -> Seq<char> {
    if s.len() < width {
        Seq::new((width - s.len()) as nat, |_i: int| ' ') + s
    } else {
        s
    }
}

/// The first `top` items of `s` (all of them when there are fewer).
pub open spec fn first_items<T>(s: Seq<T>, top: nat) -> Seq<T> {
    if s.len() <= top {
        s
    } else {
        s.take(top as int)
    }
}

/// The report line of one file or directory.
pub open spec fn entry_line(e: SizedEntry) -> Seq<char> {
    "  "@ + right_aligned(human_size(e.size as nat), 10) + "  "@ + e.path@ + "\n"@
}

/// The report line of one cleanup candidate.
pub open spec fn candidate_line(c: CleanupCandidate) -> Seq<char> {
    "  "@ + right_aligned(human_size(c.size as nat), 10) + "  "@ + c.path@ + "  ("@ + reason_text(
        c.reason,
    ) + ")\n"@
}

/// The report line of one error.
pub open spec fn error_line(e: ScanError) -> Seq<char> {
    "  "@ + e.path@ + "  "@ + e.message@ + "\n"@
}

/// The lines of a sequence of entries.
pub open spec fn entry_lines(s: Seq<SizedEntry>) -> Seq<char>
    decreases s.len(),
{
    if s.len() == 0 {
        Seq::empty()
    } else {
        entry_lines(s.drop_last()) + entry_line(s.last())
    }
}

/// The lines of a sequence of candidates.
pub open spec fn candidate_lines(s: Seq<CleanupCandidate>) -> Seq<char>
    decreases s.len(),
{
    if s.len() == 0 {
        Seq::empty()
    } else {
        candidate_lines(s.drop_last()) + candidate_line(s.last())
    }
}

/// The lines of a sequence of errors.
pub open spec fn error_lines(s: Seq<ScanError>) -> Seq<char>
    decreases s.len(),
{
    if s.len() == 0 {
        Seq::empty()
    } else {
        error_lines(s.drop_last()) + error_line(s.last())
    }
}

/// A section listing at most `top` entries, or saying "none".
pub open spec fn entry_section(title: Seq<char>, s: Seq<SizedEntry>, top: nat) -> Seq<char> {
    "\n"@ + title + "\n"@ + entry_lines(first_items(s, top)) + if s.len() == 0 {
        "  none\n"@
    } else {
        Seq::empty()
    }
}

/// The section listing at most `top` cleanup candidates, or saying "none".
pub open spec fn candidate_section(s: Seq<CleanupCandidate>, top: nat) -> Seq<char> {
    "\nLikely cleanup candidates\n"@ + candidate_lines(first_items(s, top)) + if s.len() == 0 {
        "  none\n"@
    } else {
        Seq::empty()
    }
}

/// The section listing at most `top` errors and how many more there are;
/// nothing when there are no errors.
pub open spec fn error_section(s: Seq<ScanError>, top: nat) -> Seq<char> {
    if s.len() == 0 {
        Seq::empty()
    } else {
        "\nAccess errors\n"@ + error_lines(first_items(s, top)) + if s.len() > top {
            "  ... "@ + decimal((s.len() - top) as nat) + " more\n"@
        } else {
            Seq::empty()
        }
    }
}

/// The whole text report of `r`, showing at most `top` items per list.
pub open spec fn report_text(r: ScanReport, top: nat) -> Seq<char> {
    "Scan root: "@ + r.root@ + "\n"@ + "Total file size: "@ + human_size(r.total_size as nat) + "\n"@
        + "Scanned: "@ + decimal(r.files_scanned as nat) + " files, "@ + decimal(
        r.dirs_scanned as nat,
    ) + " directories, "@ + decimal(r.hidden_entries as nat) + " hidden entries\n"@
        + "Skipped: "@ + decimal(r.symlinks_skipped as nat) + " symlinks, "@ + decimal(
        r.other_entries as nat,
    ) + " other entries, "@ + decimal(r.errors@.len()) + " access errors\n"@ + entry_section(
        "Largest directories"@,
        r.dirs@,
        top,
    ) + entry_section("Largest files"@, r.files@, top) + candidate_section(r.candidates@, top)
        + error_section(r.errors@, top)
}

/// The items shown of a list of at least `top` items are its first `top`.
proof fn lemma_first_items_of_long<T>(s: Seq<T>, top: nat)
    requires
        s.len() >= top,
    ensures
        first_items(s, top) == s.take(top as int),
{
    if s.len() == top {
        assert(s.take(top as int) =~= s);
    }
}

/// A list section shows only the first `top` entries: two lists of at least
/// `top` entries each that agree on their first `top` (and are both empty or
/// both not) give the same section.
pub proof fn lemma_entry_section_shows_first_top(
    title: Seq<char>,
    s1: Seq<SizedEntry>,
    s2: Seq<SizedEntry>,
    top: nat,
)
    requires
        s1.len() >= top,
        s2.len() >= top,
        s1.take(top as int) == s2.take(top as int),
        (s1.len() == 0) == (s2.len() == 0),
    ensures
        entry_section(title, s1, top) == entry_section(title, s2, top),
{
    lemma_first_items_of_long(s1, top);
    lemma_first_items_of_long(s2, top);
}

/// The candidate section shows only the first `top` candidates: two lists
/// of at least `top` candidates each that agree on their first `top` (and
/// are both empty or both not) give the same section.
pub proof fn lemma_candidate_section_shows_first_top(
    s1: Seq<CleanupCandidate>,
    s2: Seq<CleanupCandidate>,
    top: nat,
)
    requires
        s1.len() >= top,
        s2.len() >= top,
        s1.take(top as int) == s2.take(top as int),
        (s1.len() == 0) == (s2.len() == 0),
    ensures
        candidate_section(s1, top) == candidate_section(s2, top),
{
    lemma_first_items_of_long(s1, top);
    lemma_first_items_of_long(s2, top);
}

/// The error section shows only the first `top` errors and how many there
/// are in all: two lists of the same length, at least `top`, that agree on
/// their first `top` give the same section.
pub proof fn lemma_error_section_shows_first_top(s1: Seq<ScanError>, s2: Seq<ScanError>, top: nat)
    requires
        s1.len() == s2.len(),
        s1.len() >= top,
        s1.take(top as int) == s2.take(top as int),
    ensures
        error_section(s1, top) == error_section(s2, top),
{
    lemma_first_items_of_long(s1, top);
    lemma_first_items_of_long(s2, top);
}

/// The number of item lines of a section: one per shown item.
pub proof fn lemma_shown_count<T>(s: Seq<T>, top: nat)
    ensures
        first_items(s, top).len() == if s.len() <= top { s.len() } else { top },
        forall|i: int| 0 <= i < first_items(s, top).len() ==> #[trigger] first_items(s, top)[i] == s[i],
{
}

/// Two reports that show the same things give the same text: the same root,
/// total and counts, error lists of the same length, and lists of at least
/// `top` items that agree on their first `top` items (each pair both empty
/// or both not). What lies beyond the first `top` items of a list never
/// shows.
pub proof fn lemma_report_shows_first_top(r1: ScanReport, r2: ScanReport, top: nat)
    requires
        r1.root == r2.root,
        r1.total_size == r2.total_size,
        r1.files_scanned == r2.files_scanned,
        r1.dirs_scanned == r2.dirs_scanned,
        r1.hidden_entries == r2.hidden_entries,
        r1.symlinks_skipped == r2.symlinks_skipped,
        r1.other_entries == r2.other_entries,
        r1.errors@.len() == r2.errors@.len(),
        r1.errors@.len() >= top,
        r1.errors@.take(top as int) == r2.errors@.take(top as int),
        r1.dirs@.len() >= top && r2.dirs@.len() >= top,
        r1.dirs@.take(top as int) == r2.dirs@.take(top as int),
        (r1.dirs@.len() == 0) == (r2.dirs@.len() == 0),
        r1.files@.len() >= top && r2.files@.len() >= top,
        r1.files@.take(top as int) == r2.files@.take(top as int),
        (r1.files@.len() == 0) == (r2.files@.len() == 0),
        r1.candidates@.len() >= top && r2.candidates@.len() >= top,
        r1.candidates@.take(top as int) == r2.candidates@.take(top as int),
        (r1.candidates@.len() == 0) == (r2.candidates@.len() == 0),
    ensures
        report_text(r1, top) == report_text(r2, top),
{
    lemma_entry_section_shows_first_top("Largest directories"@, r1.dirs@, r2.dirs@, top);
    lemma_entry_section_shows_first_top("Largest files"@, r1.files@, r2.files@, top);
    lemma_candidate_section_shows_first_top(r1.candidates@, r2.candidates@, top);
    lemma_error_section_shows_first_top(r1.errors@, r2.errors@, top);
}

/// Appends `s` right-aligned in a field of 10 characters.
fn push_right_aligned(out: &mut String, s: &String)
    ensures
        final(out)@ == old(out)@ + right_aligned(s@, 10),
{
    let chars = crate::text::chars_of(s.as_str());
    let len = chars.len();
    let ghost start = out@;
    if len < 10 {
        let pad = 10 - len;
        for i in 0..pad
            invariant
                out@ == start + Seq::new(i as nat, |_i: int| ' '),
        {
            push_char(out, ' ');
            assert(out@ =~= start + Seq::new((i + 1) as nat, |_i: int| ' '));
        }
    }
    out.append(s.as_str());
    assert(out@ =~= start + right_aligned(s@, 10));
}

/// The number of items shown of a list of `len` items.
fn shown_count(len: usize, top: usize) -> (n: usize)
    ensures
        n == if len <= top { len } else { top },
{
    if len <= top {
        len
    } else {
        top
    }
}

/// Appends the lines of the first `top` entries of `s`, or "none".
fn push_entry_section(out: &mut String, title: &str, s: &Vec<SizedEntry>, top: usize)
    ensures
        final(out)@ == old(out)@ + entry_section(title@, s@, top as nat),
{
    let ghost start = out@;
    out.append("\n");
    out.append(title);
    out.append("\n");
    let ghost head = out@;
    let n = shown_count(s.len(), top);
    let ghost shown = first_items(s@, top as nat);
    assert(shown.len() == n);
    for i in 0..n
        invariant
            n == shown.len(),
            shown == first_items(s@, top as nat),
            n <= s@.len(),
            out@ == head + entry_lines(shown.take(i as int)),
    {
        let e = &s[i];
        let ghost before = out@;
        out.append("  ");
        let size_text = format_bytes(e.size);
        push_right_aligned(out, &size_text);
        out.append("  ");
        out.append(e.path.as_str());
        out.append("\n");
        assert(shown[i as int] == s@[i as int]);
        assert(shown.take(i + 1).drop_last() =~= shown.take(i as int));
        assert(out@ =~= before + entry_line(s@[i as int]));
    }
    assert(shown.take(n as int) =~= shown);
    if s.len() == 0 {
        out.append("  none\n");
    }
    assert(out@ =~= start + entry_section(title@, s@, top as nat));
}

/// Appends the lines of the first `top` candidates of `s`, or "none".
fn push_candidate_section(out: &mut String, s: &Vec<CleanupCandidate>, top: usize)
    ensures
        final(out)@ == old(out)@ + candidate_section(s@, top as nat),
{
    let ghost start = out@;
    out.append("\nLikely cleanup candidates\n");
    let ghost head = out@;
    let n = shown_count(s.len(), top);
    let ghost shown = first_items(s@, top as nat);
    for i in 0..n
        invariant
            n == shown.len(),
            shown == first_items(s@, top as nat),
            n <= s@.len(),
            out@ == head + candidate_lines(shown.take(i as int)),
    {
        let c = &s[i];
        let ghost before = out@;
        out.append("  ");
        let size_text = format_bytes(c.size);
        push_right_aligned(out, &size_text);
        out.append("  ");
        out.append(c.path.as_str());
        out.append("  (");
        out.append(c.reason.text());
        out.append(")\n");
        assert(shown[i as int] == s@[i as int]);
        assert(shown.take(i + 1).drop_last() =~= shown.take(i as int));
        assert(out@ =~= before + candidate_line(s@[i as int]));
    }
    assert(shown.take(n as int) =~= shown);
    if s.len() == 0 {
        out.append("  none\n");
    }
    assert(out@ =~= start + candidate_section(s@, top as nat));
}

/// Appends the lines of the first `top` errors of `s` and how many more
/// there are; nothing when there are none.
fn push_error_section(out: &mut String, s: &Vec<ScanError>, top: usize)
    ensures
        final(out)@ == old(out)@ + error_section(s@, top as nat),
{
    if s.len() == 0 {
        assert(out@ =~= out@ + error_section(s@, top as nat));
        return;
    }
    let ghost start = out@;
    out.append("\nAccess errors\n");
    let ghost head = out@;
    let n = shown_count(s.len(), top);
    let ghost shown = first_items(s@, top as nat);
    for i in 0..n
        invariant
            n == shown.len(),
            shown == first_items(s@, top as nat),
            n <= s@.len(),
            out@ == head + error_lines(shown.take(i as int)),
    {
        let e = &s[i];
        let ghost before = out@;
        out.append("  ");
        out.append(e.path.as_str());
        out.append("  ");
        out.append(e.message.as_str());
        out.append("\n");
        assert(shown[i as int] == s@[i as int]);
        assert(shown.take(i + 1).drop_last() =~= shown.take(i as int));
        assert(out@ =~= before + error_line(s@[i as int]));
    }
    assert(shown.take(n as int) =~= shown);
    if s.len() > top {
        out.append("  ... ");
        push_decimal(out, (s.len() - top) as u128);
        out.append(" more\n");
    }
    assert(out@ =~= start + error_section(s@, top as nat));
}

/// The text report of a scan, showing at most `top` items in each list.
pub fn render_report(report: &ScanReport, top: usize) -> (text: String)
    ensures
        text@ == report_text(*report, top as nat),
{
    let mut out = String::new();
    out.append("Scan root: ");
    out.append(report.root.as_str());
    out.append("\n");
    out.append("Total file size: ");
    let total = format_bytes(report.total_size);
    out.append(total.as_str());
    out.append("\n");
    out.append("Scanned: ");
    push_decimal(&mut out, report.files_scanned as u128);
    out.append(" files, ");
    push_decimal(&mut out, report.dirs_scanned as u128);
    out.append(" directories, ");
    push_decimal(&mut out, report.hidden_entries as u128);
    out.append(" hidden entries\n");
    out.append("Skipped: ");
    push_decimal(&mut out, report.symlinks_skipped as u128);
    out.append(" symlinks, ");
    push_decimal(&mut out, report.other_entries as u128);
    out.append(" other entries, ");
    push_decimal(&mut out, report.errors.len() as u128);
    out.append(" access errors\n");
    push_entry_section(&mut out, "Largest directories", &report.dirs, top);
    push_entry_section(&mut out, "Largest files", &report.files, top);
    push_candidate_section(&mut out, &report.candidates, top);
    push_error_section(&mut out, &report.errors, top);
    assert(out@ =~= report_text(*report, top as nat));
    out
}

} // verus!
