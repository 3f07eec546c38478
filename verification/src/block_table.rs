//! Per-group logical page tables.

use vstd::prelude::*;

verus! {

/// Request rows as page sequences, without the padding sentinel.
pub type Rows = Seq<Seq<i32>>;

/// `rows` without its trailing empty rows.
pub open spec fn trim(rows: Rows) -> Rows
    decreases rows.len(),
{
    if rows.len() > 0 && rows.last().len() == 0 {
        trim(rows.drop_last())
    } else {
        rows
    }
}

/// Page entries of one row that name a block: those that are not the null hole.
pub open spec fn blocks_in(row: Seq<i32>) -> nat
    decreases row.len(),
{
    if row.len() == 0 {
        0
    } else {
        blocks_in(row.drop_last()) + if row.last() != 0 {
            1nat
        } else {
            0nat
        }
    }
}

/// Materialized blocks of all rows.
pub open spec fn total_blocks(rows: Rows) -> nat
    decreases rows.len(),
{
    if rows.len() == 0 {
        0
    } else {
        total_blocks(rows.drop_last()) + blocks_in(rows.last())
    }
}

/// `rows` after `page` was appended to the last row; the first page starts the first row.
pub open spec fn appended(rows: Rows, page: i32) -> Rows {
    if rows.len() == 0 {
        seq![seq![page]]
    } else {
        rows.update(rows.len() - 1, rows.last().push(page))
    }
}

/// `rows` after its last page was taken: trailing empty rows go, and so does a row that the
/// removal empties.
pub open spec fn without_last(rows: Rows) -> Rows {
    let t = trim(rows);
    if t.len() == 0 {
        t
    } else if t.last().len() == 1 {
        t.drop_last()
    } else {
        t.update(t.len() - 1, t.last().drop_last())
    }
}

/// The last page of `rows`, if it holds any.
pub open spec fn last_page(rows: Rows) -> Option<i32> {
    let t = trim(rows);
    if t.len() == 0 {
        None
    } else {
        Some(t.last().last())
    }
}

/// One group's logical page table.
///
/// Each row is one request, and each entry is an absolute logical page number. `0` marks a null
/// hole, and every row ends with a `-1` padding sentinel, so kernel consumers can treat rows as
/// fixed-shape.
#[derive(Debug, Clone, PartialEq, Eq)]
pub struct BlockTable {
    /// One row per request; every row ends with a trailing `-1` sentinel.
    rows: Vec<Vec<i32>>,
    /// Unconsumed capacity at the logical tail; caller-maintained.
    available_tokens: i32,
}

impl View for BlockTable {
    type V = Rows;

    closed spec fn view(&self) -> Rows {
        self.rows@.map_values(|row: Vec<i32>| row@.drop_last())
    }
}

impl BlockTable {
    /// Every row ends with the sentinel and holds it nowhere else.
    pub closed spec fn wf(&self) -> bool {
        &&& self.available_tokens >= 0
        &&& forall|i: int|
            0 <= i < self.rows.len() ==> (#[trigger] self.rows[i]).len() > 0
                && self.rows[i]@.last() == -1
        &&& forall|i: int, k: int|
            0 <= i < self.rows.len() && 0 <= k < self.rows[i].len() - 1
                ==> #[trigger] self.rows[i]@[k] != -1
    }

    pub closed spec fn spec_available_tokens(&self) -> i32 {
        self.available_tokens
    }

    /// What every table reached from the empty one by any of its operations satisfies: no page
    /// is the sentinel, and the token capacity is not negative.
    pub proof fn lemma_wf(&self)
        requires
            self.wf(),
        ensures
            self.spec_available_tokens() >= 0,
            forall|i: int, k: int|
                0 <= i < self@.len() && 0 <= k < self@[i].len() ==> #[trigger] self@[i][k] != -1,
    {
        assert forall|i: int, k: int| 0 <= i < self@.len() && 0 <= k < self@[i].len() implies
            #[trigger] self@[i][k] != -1 by {
            assert(self.rows[i]@[k] != -1);
        }
    }

    /// Read-only view of the rows (request to absolute page numbers), sentinels and all.
    pub fn rows(&self) -> (rows: &[Vec<i32>])
        requires
            self.wf(),
        ensures
            rows@.len() == self@.len(),
            forall|i: int| 0 <= i < rows@.len() ==> (#[trigger] rows@[i])@ == self@[i].push(-1i32),
            forall|i: int, k: int|
                0 <= i < rows@.len() && 0 <= k < self@[i].len() ==> #[trigger] self@[i][k] != -1,
    {
        proof {
            assert forall|i: int| 0 <= i < self.rows.len() implies (#[trigger] self.rows@[i])@
                == self@[i].push(-1i32) by {
                assert(self.rows[i]@ =~= self.rows[i]@.drop_last().push(self.rows[i]@.last()));
            }
        }
        self.rows.as_slice()
    }

    /// Number of request rows.
    pub fn num_rows(&self) -> (n: i32)
        requires
            self@.len() <= i32::MAX,
        ensures
            n == self@.len(),
    {
        self.rows.len() as i32
    }

    /// Number of materialized blocks: page entries that are neither null holes (`0`) nor the
    /// `-1` padding sentinel.
    pub fn num_blocks(&self) -> (n: i32)
        requires
            self.wf(),
            total_blocks(self@) <= i32::MAX,
        ensures
            n == total_blocks(self@),
    {
        let mut n: i32 = 0;
        let mut r: usize = 0;
        let ghost rows = self@;
        while r < self.rows.len()
            invariant
                self.wf(),
                rows == self@,
                r <= self.rows.len(),
                n == total_blocks(rows.take(r as int)),
                total_blocks(rows) <= i32::MAX,
            decreases self.rows.len() - r,
        {
            let row: &Vec<i32> = &self.rows[r];
            let ghost pages = rows[r as int];
            let ghost before = n;
            proof {
                assert(rows.take(r + 1).drop_last() =~= rows.take(r as int));
                assert(rows.take(r + 1).last() == pages);
                lemma_total_prefix(rows, r + 1);
                assert(pages.take(0) =~= Seq::empty());
                assert forall|k: int| 0 <= k < pages.len() implies #[trigger] pages[k] != -1 by {
                    assert(self.rows[r as int]@[k] != -1);
                }
            }
            let mut i: usize = 0;
            while i < row.len()
                invariant
                    i <= row.len(),
                    row.len() > 0,
                    row@.last() == -1,
                    pages == row@.drop_last(),
                    forall|k: int| 0 <= k < pages.len() ==> #[trigger] pages[k] != -1,
                    before + blocks_in(pages) <= i32::MAX,
                    0 <= before,
                    n == before + blocks_in(
                        if i < row.len() {
                            pages.take(i as int)
                        } else {
                            pages
                        },
                    ),
                decreases row.len() - i,
            {
                proof {
                    if i < pages.len() {
                        assert(pages.take(i + 1).drop_last() =~= pages.take(i as int));
                        lemma_blocks_prefix(pages, i + 1);
                        assert(pages[i as int] == row[i as int]);
                    }
                    if i + 1 >= pages.len() {
                        assert(pages.take(pages.len() as int) =~= pages);
                    }
                }
                if row[i] != 0 && row[i] != -1 {
                    n = n + 1;
                }
                i = i + 1;
            }
            r = r + 1;
        }
        proof {
            assert(rows.take(r as int) =~= rows);
        }
        n
    }

    /// Unconsumed token capacity at the logical tail.
    pub fn available_tokens(&self) -> (n: i32)
        requires
            self.wf(),
        ensures
            n == self.spec_available_tokens(),
            n >= 0,
    {
        self.available_tokens
    }

    /// Sets the unconsumed token capacity.
    pub fn set_available_tokens(&mut self, tokens: i32)
        requires
            old(self).wf(),
            tokens >= 0,
        ensures
            final(self).wf(),
            final(self)@ == old(self)@,
            final(self).spec_available_tokens() == tokens,
    {
        self.available_tokens = tokens;
    }

    /// Starts a new request row.
    pub fn begin_request(&mut self)
        requires
            old(self).wf(),
        ensures
            final(self).wf(),
            final(self)@ == old(self)@.push(Seq::empty()),
            final(self).spec_available_tokens() == old(self).spec_available_tokens(),
    {
        let ghost before = self@;
        self.rows.push(vec![-1]);
        proof {
            assert(self.rows[self.rows.len() - 1]@.drop_last() =~= Seq::empty());
            assert(self@ =~= before.push(Seq::empty()));
        }
    }

    /// Appends `page` to the last request row, keeping the sentinel in place. The first call
    /// creates the first row. `page` must not be the `-1` sentinel; `0` marks a null hole.
    pub fn append_page(&mut self, page: i32)
        requires
            old(self).wf(),
            page != -1,
        ensures
            final(self).wf(),
            final(self)@ == appended(old(self)@, page),
            final(self).spec_available_tokens() == old(self).spec_available_tokens(),
    {
        let ghost before = self@;
        if self.rows.len() == 0 {
            self.begin_request();
        }
        assert(self@.len() == self.rows.len());
        let at: usize = self.rows.len() - 1;
        let ghost mid = self@;
        let last = &mut self.rows[at];
        let end: usize = last.len() - 1;
        last.insert(end, page);
        proof {
            assert(self.rows[at as int]@.drop_last() =~= mid[at as int].push(page));
            assert(self@ =~= mid.update(at as int, mid[at as int].push(page)));
            assert(self@ =~= appended(before, page)) by {
                if before.len() == 0 {
                    assert(mid[0].push(page) =~= seq![page]);
                }
            }
        }
    }

    /// Removes and returns the last page. Trailing empty rows are dropped, and a row emptied by
    /// this removal is dropped too. `None` when the table holds no pages.
    pub fn remove_last_page(&mut self) -> (page: Option<i32>)
        requires
            old(self).wf(),
        ensures
            final(self).wf(),
            final(self)@ == without_last(old(self)@),
            page == last_page(old(self)@),
            final(self).spec_available_tokens() == old(self).spec_available_tokens(),
    {
        while self.rows.len() > 0 && self.rows[self.rows.len() - 1].len() <= 1
            invariant
                self.wf(),
                trim(self@) == trim(old(self)@),
                self.spec_available_tokens() == old(self).spec_available_tokens(),
            decreases self.rows.len(),
        {
            let ghost v = self@;
            self.rows.pop();
            proof {
                assert(self@ =~= v.drop_last());
                assert(v.last().len() == 0);
            }
        }
        let ghost t = self@;
        if self.rows.len() == 0 {
            return None;
        }
        let at: usize = self.rows.len() - 1;
        let last = &mut self.rows[at];
        let end: usize = last.len() - 2;
        let page: i32 = last.remove(end);
        let emptied: bool = last.len() == 1;
        proof {
            assert(self.rows[at as int]@.drop_last() =~= t[at as int].drop_last());
            assert(self@ =~= t.update(at as int, t[at as int].drop_last()));
        }
        if emptied {
            self.rows.pop();
            assert(self@ =~= t.drop_last());
        }
        Some(page)
    }
}

impl Default for BlockTable {
    /// An empty table.
    fn default() -> (table: Self)
        ensures
            table.wf(),
            table@ == Rows::empty(),
            table.spec_available_tokens() == 0,
    {
        let table = BlockTable { rows: Vec::new(), available_tokens: 0 };
        assert(table@ =~= Seq::empty());
        table
    }
}

proof fn lemma_blocks_prefix(row: Seq<i32>, k: int)
    requires
        0 <= k <= row.len(),
    ensures
        blocks_in(row.take(k)) <= blocks_in(row),
    decreases row.len(),
{
    if k == row.len() {
        assert(row.take(k) =~= row);
    } else {
        assert(row.drop_last().take(k) =~= row.take(k));
        lemma_blocks_prefix(row.drop_last(), k);
    }
}

proof fn lemma_total_prefix(rows: Rows, k: int)
    requires
        0 <= k <= rows.len(),
    ensures
        total_blocks(rows.take(k)) <= total_blocks(rows),
    decreases rows.len(),
{
    if k == rows.len() {
        assert(rows.take(k) =~= rows);
    } else {
        assert(rows.drop_last().take(k) =~= rows.take(k));
        lemma_total_prefix(rows.drop_last(), k);
    }
}

/// Removing a page right after appending it gives the page back and restores the table, unless
/// the page went into an empty row that a request had just begun.
pub proof fn lemma_remove_undoes_append(rows: Rows, page: i32)
    requires
        rows.len() > 0 ==> rows.last().len() > 0,
    ensures
        last_page(appended(rows, page)) == Some(page),
        without_last(appended(rows, page)) == rows,
{
    let a = appended(rows, page);
    assert(trim(a) == a);
    assert(a.last().last() == page);
    if rows.len() == 0 {
        assert(a.drop_last() =~= rows);
    } else {
        assert(a.last().drop_last() =~= rows.last());
        assert(a.update(a.len() - 1, a.last().drop_last()) =~= rows);
    }
}

/// A page appended to a freshly begun row is given back too, and the row goes with it.
pub proof fn lemma_remove_drops_begun_row(rows: Rows, page: i32)
    requires
        rows.len() > 0,
        rows.last().len() == 0,
    ensures
        last_page(appended(rows, page)) == Some(page),
        without_last(appended(rows, page)) == rows.drop_last(),
{
    let a = appended(rows, page);
    assert(trim(a) == a);
    assert(a.last().last() == page);
    assert(a.drop_last() =~= rows.drop_last());
}

/// Appending a page adds a block if and only if the page is not a hole.
pub proof fn lemma_append_counts(rows: Rows, page: i32)
    ensures
        total_blocks(appended(rows, page)) == total_blocks(rows) + if page != 0 {
            1nat
        } else {
            0nat
        },
{
    let a = appended(rows, page);
    assert(a.last().drop_last() =~= if rows.len() == 0 {
        Seq::empty()
    } else {
        rows.last()
    });
    assert(a.drop_last() =~= if rows.len() == 0 {
        Seq::empty()
    } else {
        rows.drop_last()
    });
    assert(total_blocks(a) == total_blocks(a.drop_last()) + blocks_in(a.last()));
    assert(blocks_in(a.last()) == blocks_in(a.last().drop_last()) + if page != 0 {
        1nat
    } else {
        0nat
    });
    if rows.len() == 0 {
        assert(total_blocks(a.drop_last()) == 0 && blocks_in(a.last().drop_last()) == 0);
    }
}

} // verus!
