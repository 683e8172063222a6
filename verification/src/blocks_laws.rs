//! What holds of the blocks of a graph as they go to a database and back.

use vstd::prelude::*;

use crate::blocks::{
    block_columns, block_kinds, block_row, block_views, first_bad_row, info_views, quoted,
    quoted_list, upsert_params, Block, BlockInfo, BlockView,
};
use crate::row::{
    faultless, first_fault, law_a_row_is_read_or_has_one_first_fault, ColumnKind, RowError,
    ValueView,
};

verus! {

/// Whether a row holds, under the name of each column of the table, the value
/// that was given for it.
pub open spec fn holds_params(
    row: Seq<ValueView>,
    params: Seq<(Seq<char>, ValueView)>,
) -> bool {
    &&& row.len() == block_columns().len()
    &&& forall|i: int, k: int|
        0 <= i < row.len() && 0 <= k < params.len() && (#[trigger] params[k]).0 == "@"@
            + #[trigger] block_columns()[i] ==> row[i] == params[k].1
}

/// Whether no text of a list holds a quote.
pub open spec fn without_quotes(list: Seq<Seq<char>>) -> bool {
    forall|i: int, k: int| 0 <= i < list.len() && 0 <= k < list[i].len() ==> #[trigger] list[i][k] != '\''
}

/// A row that holds what a block was put in with can be read, and gives that
/// block.
pub proof fn law_stored_block_is_read_back(block: BlockView, row: Seq<ValueView>, read: BlockView)
    requires
        holds_params(row, upsert_params(block)),
    ensures
        faultless(row, block_kinds()),
        block_row(read) == row.take(9) <==> read == block,
{
    let params = upsert_params(block);
    assert forall|i: int| 0 <= i < 9 implies row[i] == block_row(block)[i] by {
        assert(params[i].0 == "@"@ + block_columns()[i]);
    }
    assert(row.take(9) =~= block_row(block));
    assert forall|i: int| 0 <= i < 9 implies crate::row::fault(
        row,
        i,
        #[trigger] block_kinds()[i],
    ) is None by {
        assert(row[i] == block_row(block)[i]);
    }
    if block_row(read) == row.take(9) {
        lemma_block_row_unique(block, read);
    }
}

/// Two blocks that have the same columns are the same.
pub proof fn lemma_block_row_unique(a: BlockView, b: BlockView)
    requires
        block_row(a) == block_row(b),
    ensures
        a == b,
{
    assert(block_row(a)[0] == block_row(b)[0]);
    assert(block_row(a)[1] == block_row(b)[1]);
    assert(block_row(a)[2] == block_row(b)[2]);
    assert(block_row(a)[3] == block_row(b)[3]);
    assert(block_row(a)[4] == block_row(b)[4]);
    assert(block_row(a)[5] == block_row(b)[5]);
    assert(block_row(a)[6] == block_row(b)[6]);
    assert(block_row(a)[7] == block_row(b)[7]);
    assert(block_row(a)[8] == block_row(b)[8]);
}

/// Where two texts end in a quoted text that holds no quote, and are the same,
/// so are the quoted texts and what stands before them.
proof fn lemma_quoted_end(p: Seq<char>, u: Seq<char>, q: Seq<char>, v: Seq<char>)
    requires
        p + quoted(u) == q + quoted(v),
        forall|k: int| 0 <= k < u.len() ==> #[trigger] u[k] != '\'',
        forall|k: int| 0 <= k < v.len() ==> #[trigger] v[k] != '\'',
    ensures
        p == q,
        u == v,
{
    reveal_strlit("'");
    let s = p + quoted(u);
    let t = q + quoted(v);
    assert(s.len() == p.len() + u.len() + 2);
    assert(t.len() == q.len() + v.len() + 2);
    assert(s[p.len() as int] == '\'');
    assert(t[q.len() as int] == '\'');
    if p.len() < q.len() {
        assert(s[q.len() as int] == u[q.len() - p.len() - 1]);
        assert(false);
    }
    if q.len() < p.len() {
        assert(t[p.len() as int] == v[p.len() - q.len() - 1]);
        assert(false);
    }
    assert(p =~= s.take(p.len() as int));
    assert(q =~= t.take(q.len() as int));
    assert(u =~= s.subrange(p.len() as int + 1, s.len() - 1));
    assert(v =~= t.subrange(q.len() as int + 1, t.len() - 1));
}

/// The texts of a list can be told from the list as it stands in a query, as
/// long as none of them holds a quote: two lists that differ make queries that
/// differ.
pub proof fn law_listed_texts_can_be_told(a: Seq<Seq<char>>, b: Seq<Seq<char>>)
    requires
        without_quotes(a),
        without_quotes(b),
    ensures
        quoted_list(a) == quoted_list(b) <==> a == b,
    decreases a.len(),
{
    reveal_strlit("'");
    reveal_strlit(", ");
    if quoted_list(a) == quoted_list(b) {
        lemma_quoted_list_empty(a);
        lemma_quoted_list_empty(b);
        if a.len() == 0 {
            assert(a =~= b);
        } else {
            let p = lead(a);
            let q = lead(b);
            lemma_lead(a);
            lemma_lead(b);
            assert forall|k: int| 0 <= k < a.last().len() implies #[trigger] a.last()[k] != '\'' by {
                assert(a[a.len() - 1][k] != '\'');
            }
            assert forall|k: int| 0 <= k < b.last().len() implies #[trigger] b.last()[k] != '\'' by {
                assert(b[b.len() - 1][k] != '\'');
            }
            lemma_quoted_end(p, a.last(), q, b.last());
            if a.len() > 1 && b.len() > 1 {
                let x = quoted_list(a.drop_last());
                let y = quoted_list(b.drop_last());
                assert(x =~= p.take(p.len() - 2));
                assert(y =~= q.take(q.len() - 2));
                assert forall|i: int, k: int|
                    0 <= i < a.drop_last().len() && 0 <= k < a.drop_last()[i].len() implies
                    #[trigger] a.drop_last()[i][k] != '\'' by {
                    assert(a[i][k] != '\'');
                }
                assert forall|i: int, k: int|
                    0 <= i < b.drop_last().len() && 0 <= k < b.drop_last()[i].len() implies
                    #[trigger] b.drop_last()[i][k] != '\'' by {
                    assert(b[i][k] != '\'');
                }
                law_listed_texts_can_be_told(a.drop_last(), b.drop_last());
                assert(a =~= a.drop_last().push(a.last()));
                assert(b =~= b.drop_last().push(b.last()));
            } else {
                assert(a.len() == 1 && b.len() == 1);
                assert(a =~= b);
            }
        }
    }
}

/// What stands before the last text of a list.
spec fn lead(list: Seq<Seq<char>>) -> Seq<char> {
    if list.len() <= 1 {
        Seq::empty()
    } else {
        quoted_list(list.drop_last()) + ", "@
    }
}

proof fn lemma_lead(list: Seq<Seq<char>>)
    requires
        list.len() > 0,
    ensures
        quoted_list(list) == lead(list) + quoted(list.last()),
        list.len() > 1 <==> lead(list).len() > 0,
{
    reveal_strlit(", ");
    assert(quoted_list(list) =~= lead(list) + quoted(list.last()));
}

proof fn lemma_quoted_list_empty(list: Seq<Seq<char>>)
    ensures
        quoted_list(list).len() == 0 <==> list.len() == 0,
{
    reveal_strlit("'");
}

/// To open a database leaves the connections of the others as they were.
pub proof fn law_other_databases_keep_their_connections(
    conns: Map<Seq<char>, u32>,
    db: Seq<char>,
    conn: u32,
    other: Seq<char>,
)
    requires
        other != db,
    ensures
        conns.insert(db, conn)[db] == conn,
        conns.insert(db, conn).dom().contains(other) == conns.dom().contains(other),
        conns.dom().contains(other) ==> conns.insert(db, conn)[other] == conns[other],
{
}

/// What a block says is what it is made of, field by field.
pub proof fn law_blocks_say_what_they_are(
    blocks: Seq<Block>,
    infos: Seq<BlockInfo>,
    i: int,
)
    ensures
        block_views(blocks).len() == blocks.len(),
        0 <= i < blocks.len() ==> {
            let view = block_views(blocks)[i];
            let block = blocks[i];
            &&& view.uuid == block.uuid@
            &&& view.block_type == block.block_type
            &&& view.page_uuid == block.page_uuid@
            &&& view.page_journal_day == block.page_journal_day
            &&& view.name == block.name@
            &&& view.content == block.content@
            &&& view.datoms == block.datoms@
            &&& view.created_at == block.created_at
            &&& view.updated_at == block.updated_at
        },
        info_views(infos).len() == infos.len(),
        0 <= i < infos.len() ==> info_views(infos)[i].uuid == infos[i].uuid@ && info_views(
            infos,
        )[i].page_uuid == infos[i].page_uuid@,
{
}

/// Rows can either all be read, or there is one failure: the first fault of the
/// first row that cannot be.
pub proof fn law_rows_are_read_or_have_one_failure(
    rows: Seq<Seq<ValueView>>,
    kinds: Seq<ColumnKind>,
    a: RowError,
    b: RowError,
)
    ensures
        first_bad_row(rows, kinds, a) && first_bad_row(rows, kinds, b) ==> a == b,
        first_bad_row(rows, kinds, a) ==> exists|i: int|
            0 <= i < rows.len() && first_fault(#[trigger] rows[i], kinds, a),
        (forall|i: int| 0 <= i < rows.len() ==> faultless(#[trigger] rows[i], kinds))
            <==> !exists|e: RowError| first_bad_row(rows, kinds, e),
    decreases rows.len(),
{
    if first_bad_row(rows, kinds, a) && first_bad_row(rows, kinds, b) {
        let i = lemma_bad_row(rows, kinds, a);
        let k = lemma_bad_row(rows, kinds, b);
        law_a_row_is_read_or_has_one_first_fault(rows[i], kinds, a, b);
        law_a_row_is_read_or_has_one_first_fault(rows[k], kinds, a, b);
        if i < k {
            assert(faultless(rows[i], kinds));
        }
        if k < i {
            assert(faultless(rows[k], kinds));
        }
    }
    if !(forall|i: int| 0 <= i < rows.len() ==> faultless(#[trigger] rows[i], kinds)) {
        let front = rows.drop_last();
        if forall|i: int| 0 <= i < front.len() ==> faultless(#[trigger] front[i], kinds) {
            let last = rows.len() - 1;
            assert forall|k: int| 0 <= k < last implies faultless(#[trigger] rows[k], kinds) by {
                assert(faultless(front[k], kinds));
            }
            law_a_row_is_read_or_has_one_first_fault(rows[last], kinds, a, b);
            let e = choose|e: RowError| first_fault(rows[last], kinds, e);
            assert(first_bad_row(rows, kinds, e));
        } else {
            law_rows_are_read_or_have_one_failure(front, kinds, a, b);
            let e = choose|e: RowError| first_bad_row(front, kinds, e);
            let i = lemma_bad_row(front, kinds, e);
            assert(first_fault(rows[i], kinds, e));
            assert forall|k: int| 0 <= k < i implies faultless(#[trigger] rows[k], kinds) by {
                assert(faultless(front[k], kinds));
            }
            assert(first_bad_row(rows, kinds, e));
        }
    }
    if exists|e: RowError| first_bad_row(rows, kinds, e) {
        let e = choose|e: RowError| first_bad_row(rows, kinds, e);
        let i = lemma_bad_row(rows, kinds, e);
        law_a_row_is_read_or_has_one_first_fault(rows[i], kinds, e, e);
        assert(!faultless(rows[i], kinds));
    }
}

proof fn lemma_bad_row(
    rows: Seq<Seq<ValueView>>,
    kinds: Seq<ColumnKind>,
    error: RowError,
) -> (i: int)
    requires
        first_bad_row(rows, kinds, error),
    ensures
        0 <= i < rows.len(),
        first_fault(rows[i], kinds, error),
        forall|k: int| 0 <= k < i ==> faultless(#[trigger] rows[k], kinds),
{
    choose|i: int|
        {
            &&& 0 <= i < rows.len()
            &&& first_fault(#[trigger] rows[i], kinds, error)
            &&& forall|k: int| 0 <= k < i ==> faultless(#[trigger] rows[k], kinds)
        }
}

/// What rows are refused for is the fault of the first row that cannot be read,
/// whatever comes behind it.
pub proof fn law_the_first_bad_row_is_told(
    rows: Seq<Seq<ValueView>>,
    kinds: Seq<ColumnKind>,
    i: int,
    error: RowError,
    told: RowError,
)
    requires
        0 <= i < rows.len(),
        first_fault(rows[i], kinds, error),
        forall|k: int| 0 <= k < i ==> faultless(#[trigger] rows[k], kinds),
    ensures
        first_bad_row(rows, kinds, told) <==> told == error,
{
    assert(first_bad_row(rows, kinds, error));
    law_rows_are_read_or_have_one_failure(rows, kinds, error, told);
}

} // verus!
