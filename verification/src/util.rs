//! Measurements a table renderer takes over a document tree: the width of a
//! row and the number of full-width rows in a table body.

use crate::transform::{lemma_seq_doc_view, seq_doc_view, DocView, SpellDescriptionStruct};
use vstd::prelude::*;

verus! {

/// The number of cells in a table element: for a row its direct children,
/// for a table head or body the cells of its first row, and zero for
/// anything else.
pub open spec fn spec_rowlen(v: DocView) -> int
    decreases v,
{
    match v {
        DocView::Tbody(cs) => {
            if cs.len() > 0 {
                spec_rowlen(cs[0])
            } else {
                0
            }
        },
        DocView::Thead(cs) => {
            if cs.len() > 0 {
                spec_rowlen(cs[0])
            } else {
                0
            }
        },
        DocView::Row(cs) => cs.len() as int,
        _ => 0,
    }
}

/// The number of rows in a table body that have exactly `ncols` cells;
/// zero for anything that is not a table body.
pub open spec fn spec_tbodylen(v: DocView, ncols: int) -> int {
    match v {
        DocView::Tbody(cs) => spec_count_rows(cs, ncols),
        _ => 0,
    }
}

/// How many of the given rows have exactly `ncols` cells.
pub open spec fn spec_count_rows(cs: Seq<DocView>, ncols: int) -> int
    decreases cs.len(),
{
    if cs.len() == 0 {
        0
    } else {
        spec_count_rows(cs.drop_last(), ncols) + (if spec_rowlen(cs.last()) == ncols {
            1int
        } else {
            0int
        })
    }
}

/// The number of cells in a table element.
pub fn rowlen(telem: &SpellDescriptionStruct) -> (r: usize)
    ensures
        r == spec_rowlen(telem@),
    decreases telem,
{
    match telem {
        SpellDescriptionStruct::Tbody(tb) | SpellDescriptionStruct::Thead(tb) => {
            if tb.len() > 0 {
                proof {
                    lemma_seq_doc_view(tb@);
                    assert(decreases_to!(*telem => *tb));
                    assert(decreases_to!(*tb => tb@));
                    assert(decreases_to!(tb@ => tb@[0]));
                }
                rowlen(&tb[0])
            } else {
                0
            }
        },
        SpellDescriptionStruct::Row(cells) => {
            proof {
                lemma_seq_doc_view(cells@);
            }
            cells.len()
        },
        _ => 0,
    }
}

/// The number of rows of a table body that are as wide as the table.
pub fn tbodylen(tbody: &SpellDescriptionStruct, ncols: usize) -> (r: usize)
    ensures
        r == spec_tbodylen(tbody@, ncols as int),
{
    match tbody {
        SpellDescriptionStruct::Tbody(tb) => {
            let mut count: usize = 0;
            let mut i: usize = 0;
            proof {
                lemma_seq_doc_view(tb@);
                assert(seq_doc_view(tb@).subrange(0, 0) =~= Seq::<DocView>::empty());
            }
            while i < tb.len()
                invariant
                    i <= tb@.len(),
                    count <= i,
                    count == spec_count_rows(
                        seq_doc_view(tb@).subrange(0, i as int),
                        ncols as int,
                    ),
                decreases tb@.len() - i,
            {
                let ghost views = seq_doc_view(tb@);
                proof {
                    lemma_seq_doc_view(tb@);
                    assert(views.subrange(0, i + 1).drop_last() =~= views.subrange(0, i as int));
                    assert(views.subrange(0, i + 1).last() == views[i as int]);
                }
                if rowlen(&tb[i]) == ncols {
                    count = count + 1;
                }
                i += 1;
            }
            proof {
                let views = seq_doc_view(tb@);
                assert(views.subrange(0, views.len() as int) =~= views);
            }
            count
        },
        _ => 0,
    }
}

} // verus!
