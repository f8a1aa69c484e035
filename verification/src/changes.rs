//! Grouping the change records a version-control diff reports into a
//! per-file collection of changed line numbers. Only added lines with a
//! valid (positive) 1-based line number count.

use vstd::prelude::*;

use crate::text::str_eq;
use crate::views::lemma_push_deep_view;

verus! {

#[derive(Debug, Clone)]
/// One line record of a diff: which file, what kind of line, and its line
/// number in the new version (0 where the line has none).
pub struct LineChange {
    /// Path of the file the record belongs to.
    pub file: String,
    /// The diff's marker for the record: '+' marks an added line.
    pub origin: char,
    /// 1-based line number in the new version, or 0 for none.
    pub new_line: usize,
}

/// The mathematical value of a [`LineChange`].
pub ghost struct LineChangeModel {
    pub file: Seq<char>,
    pub origin: char,
    pub new_line: usize,
}

impl DeepView for LineChange {
    type V = LineChangeModel;

    open spec fn deep_view(&self) -> LineChangeModel {
        LineChangeModel { file: self.file@, origin: self.origin, new_line: self.new_line }
    }
}

#[derive(Debug, Clone)]
/// The changed lines recorded for one file.
pub struct FileChanges {
    /// Path of the changed file.
    pub file: String,
    /// 1-based changed line numbers, in record order.
    pub lines: Vec<usize>,
}

/// The mathematical value of a [`FileChanges`].
pub ghost struct FileChangesModel {
    pub file: Seq<char>,
    pub lines: Seq<usize>,
}

impl DeepView for FileChanges {
    type V = FileChangesModel;

    open spec fn deep_view(&self) -> FileChangesModel {
        FileChangesModel { file: self.file@, lines: self.lines.deep_view() }
    }
}

/// A record that counts: an added line with a valid line number.
pub open spec fn is_added(r: LineChangeModel) -> bool {
    r.origin == '+' && r.new_line > 0
}

/// The added line numbers recorded for one file, in record order.
pub open spec fn added_lines(records: Seq<LineChangeModel>, f: Seq<char>) -> Seq<usize>
    decreases records.len(),
{
    if records.len() == 0 {
        seq![]
    } else {
        added_lines(records.drop_last(), f) + (if is_added(records.last())
            && records.last().file == f {
            seq![records.last().new_line]
        } else {
            seq![]
        })
    }
}

/// Whether the grouping already holds an entry for the file.
fn contains_file(out: &Vec<FileChanges>, f: &String) -> (r: bool)
    ensures
        r == (exists|i: int| 0 <= i < out.deep_view().len() && out.deep_view()[i].file == f@),
{
    let mut i: usize = 0;
    while i < out.len()
        invariant
            i <= out@.len(),
            forall|j: int| 0 <= j < i ==> out.deep_view()[j].file != f@,
        decreases out@.len() - i,
    {
        if str_eq(out[i].file.as_str(), f.as_str()) {
            proof {
                assert(out.deep_view()[i as int] == out@[i as int].deep_view());
            }
            return true;
        }
        proof {
            assert(out.deep_view()[i as int] == out@[i as int].deep_view());
        }
        i = i + 1;
    }
    false
}

/// Collect, in order, the added line numbers of one file.
fn lines_for_file(records: &Vec<LineChange>, f: &String) -> (r: Vec<usize>)
    ensures
        r.deep_view() == added_lines(records.deep_view(), f@),
{
    let ghost rv = records.deep_view();
    let mut r: Vec<usize> = Vec::new();
    let mut k: usize = 0;
    proof {
        assert(rv.take(0) =~= Seq::<LineChangeModel>::empty());
        assert(r.deep_view() =~= added_lines(rv.take(0), f@));
    }
    while k < records.len()
        invariant
            k <= rv.len(),
            rv == records.deep_view(),
            r.deep_view() == added_lines(rv.take(k as int), f@),
        decreases rv.len() - k,
    {
        let rec = &records[k];
        proof {
            assert(rv[k as int] == records@[k as int].deep_view());
            assert(rv.take(k + 1).drop_last() =~= rv.take(k as int));
            assert(rv.take(k + 1).last() == rv[k as int]);
        }
        if rec.origin == '+' && rec.new_line > 0 && str_eq(rec.file.as_str(), f.as_str()) {
            let ghost r0 = r;
            r.push(rec.new_line);
            proof {
                lemma_push_deep_view(r0, r, rec.new_line);
                assert(r.deep_view() =~= added_lines(rv.take(k + 1), f@));
            }
        } else {
            proof {
                assert(r.deep_view() =~= added_lines(rv.take(k + 1), f@));
            }
        }
        k = k + 1;
    }
    proof {
        assert(rv.take(rv.len() as int) =~= rv);
    }
    r
}

/// Group a diff's line records into per-file changed-line collections: one
/// entry per file with at least one added line, holding exactly that file's
/// added line numbers in record order.
pub fn collect_changed_lines(records: &Vec<LineChange>) -> (r: Vec<FileChanges>)
    ensures
        forall|i: int, j: int|
            0 <= i < j < r.deep_view().len() ==> r.deep_view()[i].file != r.deep_view()[j].file,
        forall|i: int|
            0 <= i < r.deep_view().len() ==> r.deep_view()[i].lines == added_lines(
                records.deep_view(),
                r.deep_view()[i].file,
            ),
        forall|f: Seq<char>|
            added_lines(records.deep_view(), f).len() > 0 ==> exists|i: int|
                0 <= i < r.deep_view().len() && r.deep_view()[i].file == f,
{
    let ghost rv = records.deep_view();
    let mut out: Vec<FileChanges> = Vec::new();
    let mut k: usize = 0;
    while k < records.len()
        invariant
            k <= rv.len(),
            rv == records.deep_view(),
            forall|i: int, j: int|
                0 <= i < j < out.deep_view().len() ==> out.deep_view()[i].file
                    != out.deep_view()[j].file,
            forall|i: int|
                0 <= i < out.deep_view().len() ==> out.deep_view()[i].lines == added_lines(
                    rv,
                    out.deep_view()[i].file,
                ),
            forall|f: Seq<char>|
                added_lines(rv.take(k as int), f).len() > 0 ==> exists|i: int|
                    0 <= i < out.deep_view().len() && out.deep_view()[i].file == f,
        decreases rv.len() - k,
    {
        let rec = &records[k];
        proof {
            assert(rv[k as int] == records@[k as int].deep_view());
        }
        let relevant = rec.origin == '+' && rec.new_line > 0;
        let present = contains_file(&out, &rec.file);
        let ghost pre = out;
        if relevant && !present {
            let lines = lines_for_file(records, &rec.file);
            let entry = FileChanges { file: rec.file.clone(), lines };
            let ghost o0 = out;
            out.push(entry);
            proof {
                lemma_push_deep_view(o0, out, entry);
            }
        }
        proof {
            assert(pre.deep_view().len() <= out.deep_view().len());
            assert(forall|i: int|
                0 <= i < pre.deep_view().len() ==> out.deep_view()[i] == pre.deep_view()[i]);
            assert forall|f: Seq<char>| #[trigger] added_lines(rv.take(k + 1), f).len()
                > 0 implies exists|i: int|
                0 <= i < out.deep_view().len() && out.deep_view()[i].file == f by {
                assert(rv.take(k + 1).drop_last() =~= rv.take(k as int));
                assert(rv.take(k + 1).last() == rv[k as int]);
                if added_lines(rv.take(k as int), f).len() > 0 {
                    let i = choose|i: int|
                        0 <= i < pre.deep_view().len() && pre.deep_view()[i].file == f;
                    assert(out.deep_view()[i].file == f);
                } else {
                    assert(is_added(rv[k as int]) && rv[k as int].file == f);
                    if present {
                        let i = choose|i: int|
                            0 <= i < pre.deep_view().len() && pre.deep_view()[i].file
                                == rec.file@;
                        assert(out.deep_view()[i].file == f);
                    } else {
                        assert(out.deep_view()[out.deep_view().len() - 1].file == f);
                    }
                }
            }
        }
        k = k + 1;
    }
    proof {
        assert(rv.take(rv.len() as int) =~= rv);
    }
    out
}

} // verus!
