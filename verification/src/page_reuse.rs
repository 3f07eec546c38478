//! Cross-request reuse of KV pages: which prefix of a prompt some earlier request already
//! computed, and which retired request gives its pages back.

use vstd::prelude::*;

use crate::sequence::nested;

verus! {

/// A request's content, whose pages later requests may alias once it is materialized.
pub struct PagedEntry {
    /// Prompt tokens that the entry covers.
    pub prefix: Vec<u32>,
    /// The pages hold their KV (prefill completed).
    pub registered: bool,
    /// Content key of each page of `prefix`.
    pub chain: Vec<String>,
}

pub struct EntryView {
    pub prefix: Seq<u32>,
    pub registered: bool,
    pub chain: Seq<String>,
}

impl View for PagedEntry {
    type V = EntryView;

    open spec fn view(&self) -> EntryView {
        EntryView { prefix: self.prefix@, registered: self.registered, chain: self.chain@ }
    }
}

/// Bookkeeping of a paged engine. Tables and entries are parallel to the active sequences.
pub struct PagedEngineState {
    pub tokens_per_page: usize,
    /// Physical pages of each active slot.
    pub tables: Vec<Vec<u32>>,
    pub entries: Vec<PagedEntry>,
    /// Finished requests whose pages persist in the pool, oldest first.
    pub retired: Vec<PagedEntry>,
    pub requests: usize,
    pub reused_tokens: usize,
    pub prompt_tokens: usize,
}

pub struct PagedView {
    pub tokens_per_page: usize,
    pub tables: Seq<Seq<u32>>,
    pub entries: Seq<EntryView>,
    pub retired: Seq<EntryView>,
    pub requests: usize,
    pub reused_tokens: usize,
    pub prompt_tokens: usize,
}

pub open spec fn entry_views(v: Seq<PagedEntry>) -> Seq<EntryView> {
    v.map_values(|e: PagedEntry| e@)
}

impl View for PagedEngineState {
    type V = PagedView;

    open spec fn view(&self) -> PagedView {
        PagedView {
            tokens_per_page: self.tokens_per_page,
            tables: nested(self.tables@),
            entries: entry_views(self.entries@),
            retired: entry_views(self.retired@),
            requests: self.requests,
            reused_tokens: self.reused_tokens,
            prompt_tokens: self.prompt_tokens,
        }
    }
}

/// The prompt tokens from `r` on that `prefix` shares, in whole pages: the end of the last
/// shared page.
pub open spec fn shared_until(prefix: Seq<u32>, prompt: Seq<u32>, page: int, r: int) -> int
    decreases prompt.len() - r,
{
    if page > 0 && r + page <= prefix.len() && r + page <= prompt.len() && prefix.subrange(
        r,
        r + page,
    ) == prompt.subrange(r, r + page) {
        shared_until(prefix, prompt, page, r + page)
    } else {
        r
    }
}

/// The longest page-aligned prefix of `prompt` that a materialized entry owns.
pub open spec fn best_shared(entries: Seq<EntryView>, prompt: Seq<u32>, page: int) -> int
    decreases entries.len(),
{
    if entries.len() == 0 {
        0
    } else {
        let rest = best_shared(entries.drop_last(), prompt, page);
        let e = entries.last();
        if e.registered {
            vstd::math::max(rest, shared_until(e.prefix, prompt, page, 0))
        } else {
            rest
        }
    }
}

/// A materialized entry owns the first `r` tokens of `prompt`, which end on a page boundary.
pub open spec fn owned(entries: Seq<EntryView>, prompt: Seq<u32>, page: int, r: int) -> bool {
    &&& 0 <= r <= prompt.len()
    &&& r % page == 0
    &&& r == 0 || exists|i: int|
        #![trigger entries[i]]
        0 <= i < entries.len() && entries[i].registered && r <= entries[i].prefix.len()
            && entries[i].prefix.take(r) == prompt.take(r)
}

proof fn lemma_shared(prefix: Seq<u32>, prompt: Seq<u32>, page: int, r: int)
    requires
        page > 0,
        0 <= r <= prompt.len(),
        r <= prefix.len(),
        r % page == 0,
        prefix.take(r) == prompt.take(r),
    ensures
        ({
            let e = shared_until(prefix, prompt, page, r);
            &&& r <= e <= prompt.len()
            &&& e <= prefix.len()
            &&& e % page == 0
            &&& prefix.take(e) == prompt.take(e)
        }),
        forall|q: int|
            r <= q <= prompt.len() && q <= prefix.len() && q % page == 0 && #[trigger] prefix.take(
                q,
            ) == prompt.take(q) ==> q <= shared_until(prefix, prompt, page, r),
    decreases prompt.len() - r,
{
    let next = r + page;
    if next <= prefix.len() && next <= prompt.len() && prefix.subrange(r, next)
        == prompt.subrange(r, next) {
        assert(next % page == 0) by {
            vstd::arithmetic::div_mod::lemma_mod_add_multiples_vanish(r, page);
        }
        assert(prefix.take(next) =~= prefix.take(r) + prefix.subrange(r, next));
        assert(prompt.take(next) =~= prompt.take(r) + prompt.subrange(r, next));
        lemma_shared(prefix, prompt, page, next);
        assert forall|q: int|
            r <= q <= prompt.len() && q <= prefix.len() && q % page == 0 && #[trigger] prefix.take(
                q,
            ) == prompt.take(q) implies q <= shared_until(prefix, prompt, page, r) by {}
    } else {
        assert forall|q: int|
            r <= q <= prompt.len() && q <= prefix.len() && q % page == 0 && #[trigger] prefix.take(
                q,
            ) == prompt.take(q) implies q <= r by {
            if q > r {
                assert(q >= next) by {
                    lemma_next_multiple(r, q, page);
                }
                assert(prefix.subrange(r, next) =~= prefix.take(q).subrange(r, next));
                assert(prompt.subrange(r, next) =~= prompt.take(q).subrange(r, next));
            }
        }
    }
}

proof fn lemma_next_multiple(r: int, q: int, page: int)
    requires
        page > 0,
        r % page == 0,
        q % page == 0,
        q > r,
    ensures
        q >= r + page,
{
    let a = r / page;
    let b = q / page;
    vstd::arithmetic::div_mod::lemma_fundamental_div_mod(r, page);
    vstd::arithmetic::div_mod::lemma_fundamental_div_mod(q, page);
    assert(page * b >= page * a + page) by (nonlinear_arith)
        requires
            page > 0,
            page * b > page * a,
    ;
}

/// Reuse takes as much as it safely can: the reused prefix is owned by a materialized entry,
/// and no longer page-aligned prefix is.
pub proof fn lemma_reuse_is_longest(entries: Seq<EntryView>, prompt: Seq<u32>, page: int)
    requires
        page > 0,
    ensures
        owned(entries, prompt, page, best_shared(entries, prompt, page)),
        forall|r: int| owned(entries, prompt, page, r) ==> r <= best_shared(entries, prompt, page),
    decreases entries.len(),
{
    if entries.len() > 0 {
        let front = entries.drop_last();
        let e = entries.last();
        let n = entries.len() - 1;
        let best = best_shared(entries, prompt, page);
        lemma_reuse_is_longest(front, prompt, page);
        assert(e.prefix.take(0) =~= prompt.take(0));
        lemma_shared(e.prefix, prompt, page, 0);
        if best == best_shared(front, prompt, page) {
            if best != 0 {
                let i = choose|i: int|
                    #![trigger front[i]]
                    0 <= i < front.len() && front[i].registered && best <= front[i].prefix.len()
                        && front[i].prefix.take(best) == prompt.take(best);
                assert(entries[i] == front[i]);
            }
        } else {
            assert(entries[n].prefix.take(best) == prompt.take(best));
        }
        assert forall|r: int| owned(entries, prompt, page, r) implies r <= best by {
            if r != 0 {
                let i = choose|i: int|
                    #![trigger entries[i]]
                    0 <= i < entries.len() && entries[i].registered && r
                        <= entries[i].prefix.len() && entries[i].prefix.take(r) == prompt.take(r);
                if i < n {
                    assert(front[i] == entries[i]);
                    assert(owned(front, prompt, page, r));
                }
            }
        }
    } else {
        assert(0int % page == 0) by {
            vstd::arithmetic::div_mod::lemma_small_mod(0, page as nat);
        }
    }
}

/// Some active table uses page `p`.
pub open spec fn referenced(tables: Seq<Seq<u32>>, p: u32) -> bool {
    exists|i: int| 0 <= i < tables.len() && (#[trigger] tables[i]).contains(p)
}

/// One of `pages` is in use by an active table.
pub open spec fn in_use(tables: Seq<Seq<u32>>, pages: Seq<Option<u32>>) -> bool {
    exists|j: int|
        0 <= j < pages.len() && (#[trigger] pages[j]) is Some && referenced(tables, pages[j]->0)
}

/// The oldest entry from `i` on none of whose pages is in use.
pub open spec fn first_evictable(
    tables: Seq<Seq<u32>>,
    pages: Seq<Seq<Option<u32>>>,
    i: nat,
) -> Option<int>
    decreases pages.len() - i,
{
    if i >= pages.len() {
        None
    } else if !in_use(tables, pages[i as int]) {
        Some(i as int)
    } else {
        first_evictable(tables, pages, i + 1)
    }
}

/// The oldest evictable entry is in range and out of use.
pub proof fn lemma_first_evictable(tables: Seq<Seq<u32>>, pages: Seq<Seq<Option<u32>>>, i: nat)
    ensures
        match first_evictable(tables, pages, i) {
            Some(k) => i <= k < pages.len() && !in_use(tables, pages[k]) && forall|m: int|
                i <= m < k ==> in_use(tables, #[trigger] pages[m]),
            None => forall|m: int| i <= m < pages.len() ==> in_use(tables, #[trigger] pages[m]),
        },
    decreases pages.len() - i,
{
    if i < pages.len() && in_use(tables, pages[i as int]) {
        lemma_first_evictable(tables, pages, i + 1);
    }
}

impl PagedView {
    /// Every entry that may own a prefix: active ones and retired ones.
    pub open spec fn owners(self) -> Seq<EntryView> {
        self.entries + self.retired
    }

    pub open spec fn reusable(self, prompt: Seq<u32>) -> int {
        best_shared(self.owners(), prompt, self.tokens_per_page as int)
    }

    /// Where prefill starts: behind the reused pages, but never behind the whole prompt, whose
    /// last page is then computed again.
    pub open spec fn boundary(self, prompt: Seq<u32>) -> int {
        let r = self.reusable(prompt);
        if r == prompt.len() {
            r - self.tokens_per_page
        } else {
            r
        }
    }
}

impl PagedEngineState {
    fn contains_page(table: &Vec<u32>, p: u32) -> (b: bool)
        ensures
            b == table@.contains(p),
    {
        let mut i: usize = 0;
        while i < table.len()
            invariant
                i <= table.len(),
                forall|k: int| 0 <= k < i ==> #[trigger] table[k] != p,
            decreases table.len() - i,
        {
            if table[i] == p {
                return true;
            }
            i = i + 1;
        }
        false
    }

    fn is_referenced(&self, p: u32) -> (b: bool)
        ensures
            b == referenced(self@.tables, p),
    {
        let mut i: usize = 0;
        while i < self.tables.len()
            invariant
                i <= self.tables.len(),
                forall|k: int| 0 <= k < i ==> !(#[trigger] self@.tables[k]).contains(p),
            decreases self.tables.len() - i,
        {
            if PagedEngineState::contains_page(&self.tables[i], p) {
                assert(self@.tables[i as int].contains(p));
                return true;
            }
            assert(self@.tables[i as int] == self.tables[i as int]@);
            i = i + 1;
        }
        false
    }

    fn any_in_use(&self, pages: &Vec<Option<u32>>) -> (b: bool)
        ensures
            b == in_use(self@.tables, pages@),
    {
        let mut j: usize = 0;
        while j < pages.len()
            invariant
                j <= pages.len(),
                forall|k: int|
                    0 <= k < j ==> !((#[trigger] pages[k]) is Some && referenced(
                        self@.tables,
                        pages[k]->0,
                    )),
            decreases pages.len() - j,
        {
            if let Some(p) = pages[j] {
                if self.is_referenced(p) {
                    return true;
                }
            }
            j = j + 1;
        }
        false
    }

    fn shared(&self, prefix: &Vec<u32>, prompt: &[u32]) -> (r: usize)
        requires
            self.tokens_per_page > 0,
        ensures
            r == shared_until(prefix@, prompt@, self.tokens_per_page as int, 0),
            r <= prompt@.len(),
    {
        let page: usize = self.tokens_per_page;
        let mut r: usize = 0;
        while prefix.len() - r >= page && prompt.len() - r >= page
            invariant
                page > 0,
                page == self.tokens_per_page,
                r <= prefix.len(),
                r <= prompt@.len(),
                shared_until(prefix@, prompt@, page as int, 0) == shared_until(
                    prefix@,
                    prompt@,
                    page as int,
                    r as int,
                ),
            decreases prompt@.len() - r,
        {
            let ghost a = prefix@.subrange(r as int, r + page);
            let ghost b = prompt@.subrange(r as int, r + page);
            let mut j: usize = 0;
            while j < page
                invariant
                    j <= page,
                    page == self.tokens_per_page,
                    r + page <= prefix.len(),
                    r + page <= prompt@.len() <= usize::MAX,
                    a == prefix@.subrange(r as int, r + page),
                    b == prompt@.subrange(r as int, r + page),
                    shared_until(prefix@, prompt@, page as int, 0) == shared_until(
                        prefix@,
                        prompt@,
                        page as int,
                        r as int,
                    ),
                    forall|k: int| 0 <= k < j ==> #[trigger] a[k] == b[k],
                decreases page - j,
            {
                if prefix[r + j] != prompt[r + j] {
                    assert(a[j as int] != b[j as int]);
                    return r;
                }
                j = j + 1;
            }
            assert(a =~= b);
            r = r + page;
        }
        r
    }

    fn best_of(&self, list: &Vec<PagedEntry>, prompt: &[u32], start: usize) -> (best: usize)
        requires
            self.tokens_per_page > 0,
            start <= prompt@.len(),
        ensures
            best == vstd::math::max(
                start as int,
                best_shared(entry_views(list@), prompt@, self.tokens_per_page as int),
            ),
            best <= prompt@.len(),
    {
        let ghost views = entry_views(list@);
        let ghost page = self.tokens_per_page as int;
        let mut best: usize = start;
        let mut i: usize = 0;
        while i < list.len()
            invariant
                self.tokens_per_page > 0,
                page == self.tokens_per_page,
                i <= list.len(),
                views == entry_views(list@),
                best <= prompt@.len(),
                best == vstd::math::max(
                    start as int,
                    best_shared(views.take(i as int), prompt@, page),
                ),
            decreases list.len() - i,
        {
            if list[i].registered {
                let r: usize = self.shared(&list[i].prefix, prompt);
                if r > best {
                    best = r;
                }
            }
            i = i + 1;
            assert(views.take(i as int).drop_last() =~= views.take(i - 1));
            assert(views.take(i as int).last() == list[i - 1]@);
        }
        assert(views.take(i as int) =~= views);
        best
    }

    /// Largest page-aligned `r` such that some materialized entry owns `prompt[..r]`: its pages
    /// hold that KV, so reuse is safe.
    pub fn find_reusable(&self, prompt: &[u32]) -> (r: usize)
        requires
            self.tokens_per_page > 0,
        ensures
            r == self@.reusable(prompt@),
            owned(self@.owners(), prompt@, self.tokens_per_page as int, r as int),
            forall|q: int|
                owned(self@.owners(), prompt@, self.tokens_per_page as int, q) ==> q <= r,
    {
        let a: usize = self.best_of(&self.entries, prompt, 0);
        let b: usize = self.best_of(&self.retired, prompt, a);
        proof {
            let page = self.tokens_per_page as int;
            lemma_best_append(self@.entries, self@.retired, prompt@, page);
            lemma_reuse_is_longest(self@.owners(), prompt@, page);
        }
        b
    }

    /// Evicts the oldest retired entry whose pages no active table references, and returns its
    /// chain, whose mappings go. `pages` holds the page registered under each key of each
    /// retired chain. The whole entry goes: a request must not skip positions of a chain that
    /// is only partly there.
    pub fn evict_one_retired(&mut self, pages: &Vec<Vec<Option<u32>>>) -> (evicted: Option<
        Vec<String>,
    >)
        requires
            pages.len() == old(self).retired.len(),
        ensures
            match evicted {
                Some(chain) => {
                    let k = first_evictable(old(self)@.tables, nested(pages@), 0);
                    &&& k is Some
                    &&& chain@ == old(self)@.retired[k->0].chain
                    &&& final(self)@ == (PagedView {
                        retired: old(self)@.retired.remove(k->0),
                        ..old(self)@
                    })
                },
                None => first_evictable(old(self)@.tables, nested(pages@), 0) is None
                    && *final(self) == *old(self),
            },
    {
        let ghost v = self@;
        let mut i: usize = 0;
        while i < self.retired.len()
            invariant
                i <= self.retired.len(),
                *self == *old(self),
                v == self@,
                pages.len() == self.retired.len(),
                first_evictable(v.tables, nested(pages@), 0) == first_evictable(
                    v.tables,
                    nested(pages@),
                    i as nat,
                ),
            decreases self.retired.len() - i,
        {
            assert(nested(pages@)[i as int] == pages[i as int]@);
            if !self.any_in_use(&pages[i]) {
                let entry = self.retired.remove(i);
                assert(self@.retired =~= v.retired.remove(i as int));
                return Some(entry.chain);
            }
            i = i + 1;
        }
        None
    }
}

proof fn lemma_best_append(a: Seq<EntryView>, b: Seq<EntryView>, prompt: Seq<u32>, page: int)
    ensures
        best_shared(a + b, prompt, page) == vstd::math::max(
            best_shared(a, prompt, page),
            best_shared(b, prompt, page),
        ),
    decreases b.len(),
{
    lemma_best_nonneg(a, prompt, page);
    if b.len() == 0 {
        assert(a + b =~= a);
    } else {
        assert((a + b).drop_last() =~= a + b.drop_last());
        lemma_best_append(a, b.drop_last(), prompt, page);
    }
}

proof fn lemma_best_nonneg(a: Seq<EntryView>, prompt: Seq<u32>, page: int)
    ensures
        best_shared(a, prompt, page) >= 0,
    decreases a.len(),
{
    if a.len() > 0 {
        lemma_best_nonneg(a.drop_last(), prompt, page);
    }
}

} // verus!
