//! The report: what the groups save, line by line.

use vstd::prelude::*;
use vstd::string::StringExecFns;

use crate::analyzer::group::{savings_sum, total_savings};
use crate::analyzer::{Analyzer, DuplicateInfo, DuplicateInfoView, FileInfo, FileInfoView, group_views};
use crate::error::DedupError;
use crate::text::{decimal, u64_to_string};

verus! {

/// A number of bytes as `humansize` writes it with binary units.
pub uninterp spec fn binary_size(bytes: u64) -> Seq<char>;

/// `humansize::format_size` with the `BINARY` options: the crate's text for
/// this number of bytes.
#[verifier::external_body]
pub(crate) fn format_binary_size(bytes: u64) -> (text: String)
    ensures
        text@ == binary_size(bytes),
{
    humansize::format_size(bytes, humansize::BINARY)
}

/// The line that sets the parts of the report apart.
pub open spec fn rule_line() -> Seq<char> {
    "============================="@
}

/// The line for the copy that stays.
pub open spec fn original_line(file: FileInfoView) -> Seq<char> {
    "\tOriginal: "@ + file.path + ", layer: "@ + decimal(file.layer_index as nat) + " size: "@
        + binary_size(file.size)
}

/// The line for a duplicate.
pub open spec fn duplicate_line(file: FileInfoView) -> Seq<char> {
    "\tDuplicate: "@ + file.path + ", layer: "@ + decimal(file.layer_index as nat)
}

/// The lines of one group: the copy that stays, then its duplicates.
pub open spec fn group_lines(group: DuplicateInfoView) -> Seq<Seq<char>> {
    seq![original_line(group.original)] + Seq::new(
        group.duplicates.len(),
        |k: int| duplicate_line(group.duplicates[k]),
    )
}

/// The lines of all groups, group after group.
pub open spec fn all_group_lines(groups: Seq<DuplicateInfoView>) -> Seq<Seq<char>>
    decreases groups.len(),
{
    if groups.len() == 0 {
        Seq::empty()
    } else {
        all_group_lines(groups.drop_last()) + group_lines(groups.last())
    }
}

/// The report: how many groups there are, what they save together, and the
/// files of each group.
pub open spec fn report(groups: Seq<DuplicateInfoView>) -> Seq<Seq<char>> {
    seq![
        rule_line(),
        "Total duplicate files: "@ + decimal(groups.len()),
        "Total duplicate size: "@ + binary_size(savings_sum(groups) as u64),
        rule_line(),
        "Duplicate files:"@,
    ] + all_group_lines(groups) + seq![rule_line()]
}

/// What a sequence of lines holds.
pub open spec fn lines_view(lines: Seq<String>) -> Seq<Seq<char>> {
    lines.map_values(|l: String| l@)
}

fn original_line_of(file: &FileInfo) -> (line: String)
    ensures
        line@ == original_line(file@),
{
    let mut line = String::from_str("\tOriginal: ");
    line.append(file.path.as_str());
    line.append(", layer: ");
    line.append(u64_to_string(file.layer_index as u64).as_str());
    line.append(" size: ");
    line.append(format_binary_size(file.size).as_str());
    line
}

fn duplicate_line_of(file: &FileInfo) -> (line: String)
    ensures
        line@ == duplicate_line(file@),
{
    let mut line = String::from_str("\tDuplicate: ");
    line.append(file.path.as_str());
    line.append(", layer: ");
    line.append(u64_to_string(file.layer_index as u64).as_str());
    line
}

impl Analyzer {
    /// Writes the report on the given groups. Savings that do not fit in 64
    /// bits when taken together are an error.
    pub fn print_possible_savings(&self, duplicates: &Vec<DuplicateInfo>) -> (r: Result<
        Vec<String>,
        DedupError,
    >)
        ensures
            match r {
                Ok(lines) => savings_sum(group_views(duplicates@)) <= u64::MAX && lines_view(lines@)
                    == report(group_views(duplicates@)),
                Err(e) => e == DedupError::SavingsOverflow && savings_sum(group_views(duplicates@))
                    > u64::MAX,
            },
    {
        let ghost groups = group_views(duplicates@);
        let total = match total_savings(duplicates) {
            Some(total) => total,
            None => {
                return Err(DedupError::SavingsOverflow);
            },
        };
        let mut lines: Vec<String> = Vec::new();
        lines.push(String::from_str("============================="));
        let mut count = String::from_str("Total duplicate files: ");
        count.append(u64_to_string(duplicates.len() as u64).as_str());
        lines.push(count);
        let mut size = String::from_str("Total duplicate size: ");
        size.append(format_binary_size(total).as_str());
        lines.push(size);
        lines.push(String::from_str("============================="));
        lines.push(String::from_str("Duplicate files:"));
        let ghost head = lines_view(lines@);
        proof {
            assert(head =~= seq![
                rule_line(),
                "Total duplicate files: "@ + decimal(groups.len()),
                "Total duplicate size: "@ + binary_size(savings_sum(groups) as u64),
                rule_line(),
                "Duplicate files:"@,
            ]);
            assert(groups.take(0).len() == 0);
            assert(head + all_group_lines(groups.take(0)) =~= head);
        }
        let mut g: usize = 0;
        while g < duplicates.len()
            invariant
                g <= duplicates@.len(),
                groups == group_views(duplicates@),
                lines_view(lines@) == head + all_group_lines(groups.take(g as int)),
            decreases duplicates@.len() - g,
        {
            let group = &duplicates[g];
            let ghost before = lines_view(lines@);
            lines.push(original_line_of(&group.original));
            let mut d: usize = 0;
            proof {
                assert(lines_view(lines@) =~= before + group_lines(group@).take(1));
            }
            while d < group.duplicates.len()
                invariant
                    d <= group.duplicates@.len(),
                    lines_view(lines@) == before + group_lines(group@).take(d + 1),
                decreases group.duplicates@.len() - d,
            {
                let ghost earlier = lines_view(lines@);
                let line = duplicate_line_of(&group.duplicates[d]);
                lines.push(line);
                proof {
                    assert(group@.duplicates[d as int] == group.duplicates@[d as int]@);
                    assert(group_lines(group@).take(d + 2) =~= group_lines(group@).take(d + 1).push(
                        line@,
                    ));
                    assert(lines_view(lines@) =~= earlier.push(line@));
                }
                d += 1;
            }
            proof {
                assert(group_lines(group@).take(group.duplicates@.len() as int + 1) == group_lines(group@));
                assert(groups.take(g + 1).drop_last() == groups.take(g as int));
                assert(groups.take(g + 1).last() == group@);
                assert((head + all_group_lines(groups.take(g as int))) + group_lines(group@) =~= head
                    + (all_group_lines(groups.take(g as int)) + group_lines(group@)));
            }
            g += 1;
        }
        let ghost body = lines_view(lines@);
        lines.push(String::from_str("============================="));
        proof {
            assert(groups.take(duplicates@.len() as int) == groups);
            assert(lines_view(lines@) =~= body + seq![rule_line()]);
        }
        Ok(lines)
    }
}

} // verus!
