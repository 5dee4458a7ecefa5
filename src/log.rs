//! The log format: one commit per line, its short identifier, subject and
//! author timestamp separated by `||`.
use vstd::prelude::*;
use vstd::string::*;

use crate::entry::{Entry, EntryView, entry_views};
use crate::text::{is_trimmed, lemma_trim_is_trimmed, split, split_str, trim, trim_str, views};

verus! {

/// The separator between the fields of a line.
pub open spec fn field_separator() -> Seq<char> {
    seq!['|', '|']
}

/// The separator between lines.
pub open spec fn line_separator() -> Seq<char> {
    seq!['\n']
}

/// The `k`-th of the pieces, or the empty text where there are fewer.
pub open spec fn field(pieces: Seq<Seq<char>>, k: int) -> Seq<char> {
    if 0 <= k < pieces.len() {
        pieces[k]
    } else {
        Seq::empty()
    }
}

/// The entry that one line describes: its first three fields, trimmed, or
/// nothing where the identifier or the subject is empty.
pub open spec fn record_of(line: Seq<char>) -> Option<EntryView> {
    let fields = split(line, field_separator());
    let id = trim(field(fields, 0));
    let subject = trim(field(fields, 1));
    let timestamp = trim(field(fields, 2));
    if id.len() == 0 || subject.len() == 0 {
        None
    } else {
        Some(EntryView { id, subject, timestamp })
    }
}

/// The entries of the lines, in the order of the lines.
pub open spec fn records(lines: Seq<Seq<char>>) -> Seq<EntryView>
    decreases lines.len(),
{
    if lines.len() == 0 {
        Seq::empty()
    } else {
        match record_of(lines.last()) {
            Some(e) => records(lines.drop_last()).push(e),
            None => records(lines.drop_last()),
        }
    }
}

/// The lines of the log output.
pub open spec fn log_lines(raw: Seq<char>) -> Seq<Seq<char>> {
    split(raw, line_separator())
}

/// The entries of a log output, which lists the newest commit first: its
/// well-formed lines, oldest first.
pub open spec fn log_entries(raw: Seq<char>) -> Seq<EntryView> {
    records(log_lines(raw)).reverse()
}

/// Identifier and subject are present and no field has white space at
/// either end.
pub open spec fn is_well_formed(e: EntryView) -> bool {
    &&& e.id.len() > 0
    &&& e.subject.len() > 0
    &&& is_trimmed(e.id)
    &&& is_trimmed(e.subject)
    &&& is_trimmed(e.timestamp)
}

/// Every entry a line gives is well formed.
pub proof fn lemma_record_well_formed(line: Seq<char>)
    ensures
        record_of(line) matches Some(e) ==> is_well_formed(e),
{
    let fields = split(line, field_separator());
    lemma_trim_is_trimmed(field(fields, 0));
    lemma_trim_is_trimmed(field(fields, 1));
    lemma_trim_is_trimmed(field(fields, 2));
}

/// Every entry of a sequence of lines is well formed.
pub proof fn lemma_records_well_formed(lines: Seq<Seq<char>>)
    ensures
        forall|i: int| 0 <= i < records(lines).len() ==> is_well_formed(#[trigger] records(lines)[i]),
    decreases lines.len(),
{
    if lines.len() > 0 {
        let prev = records(lines.drop_last());
        lemma_records_well_formed(lines.drop_last());
        lemma_record_well_formed(lines.last());
        assert forall|i: int| 0 <= i < records(lines).len() implies is_well_formed(
            #[trigger] records(lines)[i],
        ) by {
            if i < prev.len() {
                assert(records(lines)[i] == prev[i]);
            }
        }
    }
}

/// A line whose identifier or subject is empty once trimmed adds no entry.
pub proof fn lemma_malformed_line_dropped(lines: Seq<Seq<char>>, line: Seq<char>)
    requires
        trim(field(split(line, field_separator()), 0)).len() == 0
            || trim(field(split(line, field_separator()), 1)).len() == 0,
    ensures
        records(lines.push(line)) == records(lines),
{
    assert(lines.push(line).drop_last() =~= lines);
}

/// The entry one line of the log describes, if it is well formed.
pub fn parse_record(line: &str) -> (r: Option<Entry>)
    ensures
        match record_of(line@) {
            Some(v) => r matches Some(e) && e@ == v,
            None => r is None,
        },
{
    proof {
        reveal_strlit("||");
        assert("||"@ =~= field_separator());
    }
    let fields = split_str(line, "||");
    let id = if fields.len() > 0 { trim_str(fields[0]) } else { "" };
    let subject = if fields.len() > 1 { trim_str(fields[1]) } else { "" };
    let timestamp = if fields.len() > 2 { trim_str(fields[2]) } else { "" };
    proof {
        reveal_strlit("");
        assert(""@ =~= Seq::<char>::empty());
        assert(trim(Seq::<char>::empty()) =~= Seq::<char>::empty());
    }
    if subject.unicode_len() == 0 || id.unicode_len() == 0 {
        return None;
    }
    Some(Entry {
        id: String::from_str(id),
        subject: String::from_str(subject),
        timestamp: String::from_str(timestamp),
    })
}

/// The entries of a log output, oldest first.
pub fn parse_log(raw: &str) -> (r: Vec<Entry>)
    ensures
        entry_views(r@) == log_entries(raw@),
        forall|i: int| 0 <= i < r@.len() ==> is_well_formed(#[trigger] r@[i]@),
{
    proof {
        reveal_strlit("\n");
        assert("\n"@ =~= line_separator());
    }
    let lines = split_str(raw, "\n");
    let ghost all_lines = views(lines@);
    let mut commits: Vec<Entry> = Vec::new();
    let mut i: usize = 0;
    while i < lines.len()
        invariant
            all_lines == views(lines@),
            all_lines == log_lines(raw@),
            i <= lines.len(),
            entry_views(commits@) == records(all_lines.subrange(0, i as int)),
        decreases lines.len() - i,
    {
        let rec = parse_record(lines[i]);
        proof {
            let before = all_lines.subrange(0, i as int);
            let after = all_lines.subrange(0, i + 1);
            assert(after.drop_last() =~= before);
            assert(after.last() == lines@[i as int]@);
        }
        match rec {
            Some(e) => {
                proof {
                    assert(entry_views(commits@.push(e)) =~= entry_views(commits@).push(e@));
                }
                commits.push(e);
            },
            None => {},
        }
        i = i + 1;
    }
    proof {
        assert(all_lines.subrange(0, lines.len() as int) =~= all_lines);
    }
    let ghost forward = entry_views(commits@);
    let total = commits.len();
    let mut out: Vec<Entry> = Vec::new();
    while commits.len() > 0
        invariant
            forward.len() == total,
            commits.len() + out.len() == total,
            entry_views(commits@) == forward.subrange(0, commits.len() as int),
            entry_views(out@) == forward.reverse().subrange(0, out.len() as int),
        decreases commits.len(),
    {
        let ghost before = commits@;
        let e = commits.pop().unwrap();
        proof {
            assert(entry_views(commits@) =~= forward.subrange(0, commits.len() as int)) by {
                assert(commits@ =~= before.drop_last());
            }
            assert(e@ == forward[commits.len() as int]) by {
                assert(entry_views(before)[commits.len() as int] == e@);
            }
            assert(entry_views(out@.push(e)) =~= forward.reverse().subrange(0, out.len() + 1));
        }
        out.push(e);
    }
    proof {
        assert(entry_views(out@) =~= forward.reverse());
        lemma_records_well_formed(all_lines);
        assert forall|i: int| 0 <= i < out@.len() implies is_well_formed(#[trigger] out@[i]@) by {
            assert(out@[i]@ == entry_views(out@)[i]);
            assert(forward.reverse()[i] == forward[total - 1 - i]);
        }
    }
    out
}

} // verus!
