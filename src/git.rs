//! The git history provider: what it asks git for, and what it makes of the
//! answers. Running git is left to the caller, which hands over its output.
use vstd::prelude::*;
use vstd::string::*;

use crate::entry::{Entry, entry_views};
use crate::log::{is_well_formed, log_entries, log_lines, parse_log, records};
use crate::text::trim;

verus! {

/// Reads the commits of the configured user from git.
pub struct GitProvider {}

/// The texts of a sequence of strings.
pub open spec fn string_views(v: Seq<String>) -> Seq<Seq<char>> {
    v.map_values(|s: String| s@)
}

/// The revision just before `id`: `id` followed by a caret.
pub open spec fn parent_of(id: Seq<char>) -> Seq<char> {
    id.push('^')
}

/// A report: the diffs one after another, in the order given, with nothing
/// between them.
pub open spec fn report_of(diffs: Seq<Seq<char>>) -> Seq<char> {
    diffs.flatten()
}

/// A report keeps the order of the selection and puts nothing between two
/// diffs: the report of a selection with one more entry is the report of the
/// selection followed by that entry's diff, and the report of two entries is
/// their two diffs joined.
pub proof fn report_keeps_order(diffs: Seq<Seq<char>>, next: Seq<char>, first: Seq<char>)
    ensures
        report_of(diffs.push(next)) == report_of(diffs) + next,
        report_of(seq![first, next]) == first + next,
{
    diffs.lemma_flatten_push(next);
    let pair = seq![first, next];
    seq![first].lemma_flatten_push(next);
    assert(seq![first].push(next) =~= pair);
    seq![first].lemma_flatten_one_element();
}

/// Reading the same log output twice gives the same entries, identifiers and
/// order included.
pub proof fn same_log_same_entries(log_output: Seq<char>, first: Seq<Entry>, second: Seq<Entry>)
    requires
        entry_views(first) == log_entries(log_output),
        entry_views(second) == log_entries(log_output),
    ensures
        first.len() == second.len(),
        forall|i: int| 0 <= i < first.len() ==> #[trigger] first[i]@ == second[i]@,
{
    assert(entry_views(first).len() == first.len());
    assert(entry_views(second).len() == second.len());
    assert forall|i: int| 0 <= i < first.len() implies #[trigger] first[i]@ == second[i]@ by {
        assert(entry_views(first)[i] == first[i]@);
        assert(entry_views(second)[i] == second[i]@);
    }
}

impl GitProvider {
    pub fn new() -> GitProvider {
        GitProvider {}
    }

    /// The user's identity from the output of `git config user.email`.
    pub fn get_own_name(&self, config_output: &str) -> (r: String)
        ensures
            r@ == trim(config_output@),
    {
        String::from_str(crate::text::trim_str(config_output))
    }

    /// The arguments of the `git log` call that lists the commits of `author`,
    /// one per line, in the format that `get_commits` reads.
    pub fn log_args(&self, author: &str) -> (r: Vec<String>)
        ensures
            r@.len() == 3,
            r@[0]@ == "log"@,
            r@[1]@ == "--author="@ + author@,
            r@[2]@ == "--format=%h||%s||%ai"@,
    {
        let mut filter = String::from_str("--author=");
        filter.append(author);
        let mut args: Vec<String> = Vec::new();
        args.push(String::from_str("log"));
        args.push(filter);
        args.push(String::from_str("--format=%h||%s||%ai"));
        args
    }

    /// The commits listed in the output of `git log`, oldest first.
    pub fn get_commits(&self, log_output: &str) -> (r: Vec<Entry>)
        ensures
            entry_views(r@) == log_entries(log_output@),
            forall|i: int| 0 <= i < r@.len() ==> is_well_formed(#[trigger] r@[i]@),
            forall|i: int|
                0 <= i < r@.len() ==> #[trigger] r@[i]@ == records(log_lines(log_output@))[r@.len()
                    - 1 - i],
    {
        let r = parse_log(log_output);
        proof {
            assert forall|i: int| 0 <= i < r@.len() implies #[trigger] r@[i]@ == records(
                log_lines(log_output@),
            )[r@.len() - 1 - i] by {
                let recs = records(log_lines(log_output@));
                assert(entry_views(r@).len() == r@.len());
                assert(recs.reverse().len() == recs.len());
                assert(entry_views(r@)[i] == r@[i]@);
                assert(recs.reverse()[i] == recs[recs.len() - 1 - i]);
            }
        }
        r
    }

    /// The arguments of the `git diff` call that shows what `entry` changed
    /// against its parent revision.
    pub fn diff_args(&self, entry: &Entry) -> (r: Vec<String>)
        ensures
            r@.len() == 3,
            r@[0]@ == "diff"@,
            r@[1]@ == parent_of(entry.id@),
            r@[2]@ == entry.id@,
    {
        let mut parent = String::from_str(entry.id.as_str());
        parent.append("^");
        proof {
            reveal_strlit("^");
        }
        let mut args: Vec<String> = Vec::new();
        args.push(String::from_str("diff"));
        args.push(parent);
        args.push(String::from_str(entry.id.as_str()));
        proof {
            assert(args@[1]@ =~= parent_of(entry.id@));
        }
        args
    }

    /// The report for a selection of entries, given the diff of each of them
    /// in the order of the selection.
    pub fn assemble_report(&self, diffs: &Vec<String>) -> (r: String)
        ensures
            r@ == report_of(string_views(diffs@)),
    {
        let mut out = String::new();
        let mut i: usize = 0;
        while i < diffs.len()
            invariant
                i <= diffs.len(),
                out@ == string_views(diffs@).subrange(0, i as int).flatten(),
            decreases diffs.len() - i,
        {
            proof {
                let done = string_views(diffs@).subrange(0, i as int);
                done.lemma_flatten_push(diffs@[i as int]@);
                assert(string_views(diffs@).subrange(0, i + 1) =~= done.push(diffs@[i as int]@));
            }
            out.append(diffs[i].as_str());
            i = i + 1;
        }
        proof {
            assert(string_views(diffs@).subrange(0, diffs.len() as int) =~= string_views(diffs@));
        }
        out
    }
}

} // verus!
