//! Range mappings, and the lookups that they allow.
//!
//! A range mapping maps a whole stretch of generated code, so a lookup
//! offsets its original column by the distance between the column asked
//! for and the generated column of the mapping. That distance exists only
//! where the mapping does not lie right of the column asked for. This
//! module decides, from the generated positions of a document's mappings,
//! whether a lookup has a distance to take.

use vstd::prelude::*;

verus! {

/// A mapping as this module sees it: its generated line, its generated
/// column, both counted from 0, and whether it is a range mapping.
pub type Mark = (u32, u32, bool);

/// Whether the mapping `mark` lies at or before a generated position.
pub open spec fn at_or_before(mark: Mark, line: u32, column: u32) -> bool {
    mark.0 < line || (mark.0 == line && mark.1 <= column)
}

/// The last of `marks`, in their order, that lies at or before a generated
/// position.
pub open spec fn last_at_or_before(marks: Seq<Mark>, line: u32, column: u32) -> Option<Mark>
    decreases marks.len(),
{
    if marks.len() == 0 {
        None
    } else if at_or_before(marks.last(), line, column) {
        Some(marks.last())
    } else {
        last_at_or_before(marks.drop_last(), line, column)
    }
}

/// Whether a lookup of a generated position has no distance to take: the
/// last mapping at or before the position is a range mapping that lies
/// right of the column asked for, on an earlier line.
pub open spec fn offset_overflows(marks: Seq<Mark>, line: u32, column: u32) -> bool {
    match last_at_or_before(marks, line, column) {
        Some(mark) => mark.2 && mark.1 > column,
        None => false,
    }
}

/// Whether any of `marks` is a range mapping.
pub open spec fn any_range(marks: Seq<Mark>) -> bool {
    exists|k: int| 0 <= k < marks.len() && (#[trigger] marks[k]).2
}

/// The last mapping at or before a position is one of the mappings.
pub proof fn lemma_last_is_one_of(marks: Seq<Mark>, line: u32, column: u32)
    ensures
        last_at_or_before(marks, line, column) matches Some(mark) ==> exists|k: int|
            0 <= k < marks.len() && #[trigger] marks[k] == mark,
    decreases marks.len(),
{
    if marks.len() > 0 {
        if at_or_before(marks.last(), line, column) {
            assert(marks[marks.len() - 1] == marks.last());
        } else {
            lemma_last_is_one_of(marks.drop_last(), line, column);
            if last_at_or_before(marks.drop_last(), line, column) is Some {
                let mark = last_at_or_before(marks.drop_last(), line, column)->0;
                let k = choose|k: int|
                    0 <= k < marks.drop_last().len() && #[trigger] marks.drop_last()[k] == mark;
                assert(marks[k] == mark);
            }
        }
    }
}

/// Without range mappings every lookup is allowed; so is the lookup of a
/// position at which a mapping lies; and so is every lookup in the last
/// column.
pub proof fn lemma_when_lookups_are_allowed(marks: Seq<Mark>, line: u32, column: u32)
    ensures
        !any_range(marks) ==> !offset_overflows(marks, line, column),
        column == u32::MAX ==> !offset_overflows(marks, line, column),
{
    lemma_last_is_one_of(marks, line, column);
}

/// What is kept of a document to decide its lookups: nothing where it has
/// no range mapping, else the generated positions of its mappings.
pub struct RangeGuard {
    ranged: bool,
    kept: Vec<Mark>,
    all: Ghost<Seq<Mark>>,
}

impl RangeGuard {
    /// What is kept is enough to decide.
    #[verifier::type_invariant]
    spec fn enough(&self) -> bool {
        if self.ranged {
            self.kept@ == self.all@
        } else {
            !any_range(self.all@)
        }
    }

    /// The mappings that the guard was made of.
    pub closed spec fn marks(&self) -> Seq<Mark> {
        self.all@
    }

    /// The guard of the mappings `marks`.
    pub fn new(marks: Vec<Mark>) -> (guard: Self)
        ensures
            guard.marks() == marks@,
    {
        let mut k: usize = 0;
        while k < marks.len()
            invariant
                k <= marks.len(),
                forall|j: int| 0 <= j < k ==> !(#[trigger] marks@[j]).2,
            decreases marks.len() - k,
        {
            if marks[k].2 {
                let ghost all = marks@;
                return RangeGuard { ranged: true, kept: marks, all: Ghost(all) };
            }
            k = k + 1;
        }
        RangeGuard { ranged: false, kept: Vec::new(), all: Ghost(marks@) }
    }

    /// Whether the lookup of a generated position is allowed: whether it
    /// has a distance to take, should it find a range mapping.
    pub fn allows(&self, line: u32, column: u32) -> (b: bool)
        ensures
            b == !offset_overflows(self.marks(), line, column),
    {
        proof {
            use_type_invariant(self);
        }
        let ghost marks = self.marks();
        if !self.ranged {
            proof {
                lemma_when_lookups_are_allowed(marks, line, column);
            }
            return true;
        }
        let mut k: usize = self.kept.len();
        proof {
            assert(marks.take(k as int) == marks);
        }
        while k > 0
            invariant
                k <= self.kept.len(),
                self.kept@ == marks,
                marks == self.marks(),
                last_at_or_before(marks, line, column) == last_at_or_before(
                    marks.take(k as int),
                    line,
                    column,
                ),
            decreases k,
        {
            let mark = self.kept[k - 1];
            proof {
                assert(marks.take(k as int).last() == mark);
                assert(marks.take(k as int).drop_last() == marks.take(k - 1));
            }
            if mark.0 < line || (mark.0 == line && mark.1 <= column) {
                return !(mark.2 && mark.1 > column);
            }
            k = k - 1;
        }
        proof {
            assert(marks.take(0) =~= Seq::<Mark>::empty());
        }
        true
    }
}

} // verus!
