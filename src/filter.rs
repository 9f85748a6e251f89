use vstd::prelude::*;
use crate::book::{book_wf, functions_unique, page_id, Book, Function, FunctionView, Page, PageView};
use crate::text::{chars_of, copy_strings};

verus! {

// A filter keeps the functions whose own name, page name or one of whose
// page's categories holds the filter text, letters compared without regard
// to ASCII case. Pages left without functions are dropped.

/// The two characters are equal, or the same ASCII letter in two cases.
pub open spec fn same_letter(a: char, b: char) -> bool {
    ||| a == b
    ||| ('A' <= a <= 'Z' && a as u32 + 32 == b as u32)
    ||| ('A' <= b <= 'Z' && b as u32 + 32 == a as u32)
}

pub open spec fn matches_at(s: Seq<char>, q: Seq<char>, i: int) -> bool {
    &&& 0 <= i
    &&& i + q.len() <= s.len()
    &&& forall|j: int| 0 <= j < q.len() ==> same_letter(#[trigger] s[i + j], q[j])
}

/// `q` occurs in `s`, regardless of ASCII case.
pub open spec fn contains_folded(s: Seq<char>, q: Seq<char>) -> bool {
    exists|i: int| matches_at(s, q, i)
}

pub open spec fn page_matches(p: PageView, q: Seq<char>) -> bool {
    ||| contains_folded(p.name, q)
    ||| exists|k: int| 0 <= k < p.categories.len() && contains_folded(#[trigger] p.categories[k], q)
}

/// The function `f` of page `p` is kept by the filter `q`.
pub open spec fn function_matches(p: PageView, f: FunctionView, q: Seq<char>) -> bool {
    contains_folded(f.name, q) || page_matches(p, q)
}

/// The functions of `fs` that `q` keeps, as functions of page `p`, in order.
pub open spec fn filter_functions(p: PageView, fs: Seq<FunctionView>, q: Seq<char>) -> Seq<
    FunctionView,
>
    decreases fs.len(),
{
    if fs.len() == 0 {
        seq![]
    } else {
        let r = filter_functions(p, fs.drop_last(), q);
        if function_matches(p, fs.last(), q) {
            r.push(fs.last())
        } else {
            r
        }
    }
}

/// The page `p` with only the functions that `q` keeps.
pub open spec fn filter_page(p: PageView, q: Seq<char>) -> PageView {
    PageView { functions: filter_functions(p, p.functions, q), ..p }
}

/// The pages that keep at least one function under `q`, each with only those functions.
pub open spec fn filter_pages(ps: Seq<PageView>, q: Seq<char>) -> Seq<PageView>
    decreases ps.len(),
{
    if ps.len() == 0 {
        seq![]
    } else {
        let r = filter_pages(ps.drop_last(), q);
        let p = filter_page(ps.last(), q);
        if p.functions.len() > 0 {
            r.push(p)
        } else {
            r
        }
    }
}

fn letters_match(a: char, b: char) -> (r: bool)
    ensures
        r == same_letter(a, b),
{
    let x = a as u32;
    let y = b as u32;
    x == y || ('A' <= a && a <= 'Z' && x + 32 == y) || ('A' <= b && b <= 'Z' && y + 32 == x)
}

/// Whether `q` occurs in `s`, regardless of ASCII case.
pub fn contains_ignoring_case(s: &Vec<char>, q: &Vec<char>) -> (r: bool)
    ensures
        r == contains_folded(s@, q@),
{
    if q.len() > s.len() {
        assert(forall|i: int| !matches_at(s@, q@, i));
        return false;
    }
    let slen = s.len();
    let mut i: usize = 0;
    while i <= s.len() - q.len()
        invariant
            slen == s@.len(),
            q@.len() <= s@.len(),
            i <= s@.len() - q@.len() + 1,
            forall|k: int| 0 <= k < i ==> !matches_at(s@, q@, k),
        decreases s@.len() - q@.len() + 1 - i,
    {
        let mut j: usize = 0;
        let mut all = true;
        while j < q.len()
            invariant
                slen == s@.len(),
                q@.len() <= s@.len(),
                i <= s@.len() - q@.len(),
                j <= q@.len(),
                all == (forall|t: int| 0 <= t < j ==> same_letter(#[trigger] s@[i + t], q@[t])),
            decreases q@.len() - j,
        {
            if !letters_match(s[i + j], q[j]) {
                all = false;
            }
            j = j + 1;
            assert(all == (forall|t: int| 0 <= t < j ==> same_letter(#[trigger] s@[i + t], q@[t]))) by {
                if !all {
                    if exists|t: int| 0 <= t < j - 1 && !same_letter(s@[i + t], q@[t]) {
                    } else {
                        assert(!same_letter(s@[i + (j - 1)], q@[j - 1]));
                    }
                }
            }
        }
        if all {
            assert(matches_at(s@, q@, i as int));
            return true;
        }
        i = i + 1;
    }
    false
}

fn copy_function(f: &Function) -> (r: Function)
    ensures
        r@ == f@,
{
    let interpreter = match &f.interpreter {
        Some(t) => Some(t.clone()),
        None => None,
    };
    Function {
        name: f.name.clone(),
        description: f.description.clone(),
        interpreter,
        script: f.script.clone(),
    }
}

/// The page with only the functions that `q` keeps.
fn filter_one_page(p: &Page, q: &Vec<char>) -> (r: Page)
    ensures
        r@ == filter_page(p@, q@),
{
    let name = chars_of(p.name.as_str());
    let mut hit = contains_ignoring_case(&name, q);
    let mut k: usize = 0;
    while k < p.categories.len()
        invariant
            k <= p.categories@.len(),
            hit == (contains_folded(p@.name, q@) || exists|c: int|
                0 <= c < k && contains_folded(#[trigger] p@.categories[c], q@)),
        decreases p.categories.len() - k,
    {
        let c = chars_of(p.categories[k].as_str());
        if contains_ignoring_case(&c, q) {
            hit = true;
        }
        k = k + 1;
        assert(hit == (contains_folded(p@.name, q@) || exists|c: int|
            0 <= c < k && contains_folded(#[trigger] p@.categories[c], q@))) by {
            if contains_folded(p@.categories[k - 1], q@) {
                assert(0 <= k - 1 < k);
            }
        }
    }
    assert(hit == page_matches(p@, q@));
    let ghost fs = p@.functions;
    let mut kept: Vec<Function> = Vec::new();
    let mut i: usize = 0;
    while i < p.functions.len()
        invariant
            i <= p.functions@.len(),
            fs == p@.functions,
            hit == page_matches(p@, q@),
            kept@.map_values(|f: Function| f@) == filter_functions(p@, fs.take(i as int), q@),
        decreases p.functions.len() - i,
    {
        assert(fs.take(i + 1).drop_last() =~= fs.take(i as int));
        let f = &p.functions[i];
        let fname = chars_of(f.name.as_str());
        let ghost before = kept@;
        if hit || contains_ignoring_case(&fname, q) {
            kept.push(copy_function(f));
            assert(kept@.map_values(|f: Function| f@) =~= before.map_values(|f: Function| f@).push(fs[i as int]));
        }
        i = i + 1;
    }
    assert(fs.take(i as int) =~= fs);
    let r = Page { name: p.name.clone(), categories: copy_strings(&p.categories), functions: kept };
    r
}

impl Book {
    /// The book with only the functions that `filter` keeps, and only the pages that keep one.
    pub fn filtered(&self, filter: &str) -> (r: Book)
        ensures
            r@ == filter_pages(self@, filter@),
            self.wf() ==> r.wf(),
    {
        proof {
            lemma_filter_pages(self@, filter@);
        }
        let q = chars_of(filter);
        let mut pages: Vec<Page> = Vec::new();
        let mut i: usize = 0;
        while i < self.pages.len()
            invariant
                i <= self.pages@.len(),
                q@ == filter@,
                pages@.map_values(|p: Page| p@) == filter_pages(self@.take(i as int), q@),
            decreases self.pages.len() - i,
        {
            assert(self@.take(i + 1).drop_last() =~= self@.take(i as int));
            let p = filter_one_page(&self.pages[i], &q);
            let ghost before = pages@;
            if p.functions.len() > 0 {
                pages.push(p);
                assert(pages@.map_values(|p: Page| p@) =~= before.map_values(|p: Page| p@).push(p@));
            }
            i = i + 1;
        }
        assert(self@.take(i as int) =~= self@);
        Book { pages }
    }
}


proof fn lemma_filter_functions(p: PageView, fs: Seq<FunctionView>, q: Seq<char>)
    ensures
        forall|k: int|
            0 <= k < filter_functions(p, fs, q).len() ==> function_matches(
                p,
                #[trigger] filter_functions(p, fs, q)[k],
                q,
            ) && fs.contains(filter_functions(p, fs, q)[k]),
        forall|i: int|
            0 <= i < fs.len() && function_matches(p, #[trigger] fs[i], q) ==> filter_functions(
                p,
                fs,
                q,
            ).contains(fs[i]),
        functions_unique(fs) ==> functions_unique(filter_functions(p, fs, q)),
    decreases fs.len(),
{
    if fs.len() > 0 {
        let init = fs.drop_last();
        lemma_filter_functions(p, init, q);
        let r0 = filter_functions(p, init, q);
        let r = filter_functions(p, fs, q);
        assert forall|k: int| 0 <= k < r.len() implies function_matches(p, #[trigger] r[k], q)
            && fs.contains(r[k]) by {
            if k < r0.len() {
                assert(r[k] == r0[k]);
                let i = choose|i: int| 0 <= i < init.len() && init[i] == r0[k];
                assert(fs[i] == r0[k]);
            } else {
                assert(fs[fs.len() - 1] == r[k]);
            }
        }
        assert forall|i: int| 0 <= i < fs.len() && function_matches(p, #[trigger] fs[i], q) implies r.contains(
            fs[i],
        ) by {
            if i < fs.len() - 1 {
                assert(init[i] == fs[i]);
                let k = choose|k: int| 0 <= k < r0.len() && r0[k] == init[i];
                assert(r[k] == r0[k]);
            } else {
                assert(r[r.len() - 1] == fs[i]);
            }
        }
        if functions_unique(fs) {
            assert(functions_unique(init));
            assert forall|a: int, b: int|
                0 <= a < r.len() && 0 <= b < r.len() && a != b implies #[trigger] r[a].name
                != #[trigger] r[b].name by {
                if a < r0.len() && b < r0.len() {
                    assert(r[a] == r0[a] && r[b] == r0[b]);
                } else if a < r0.len() {
                    let i = choose|i: int| 0 <= i < init.len() && init[i] == r0[a];
                    assert(r[a] == fs[i] && r[b] == fs[fs.len() - 1]);
                } else {
                    let i = choose|i: int| 0 <= i < init.len() && init[i] == r0[b];
                    assert(r[b] == fs[i] && r[a] == fs[fs.len() - 1]);
                }
            }
        }
    }
}

pub open spec fn from_some_page(ps: Seq<PageView>, q: Seq<char>, x: PageView) -> bool {
    exists|i: int| 0 <= i < ps.len() && #[trigger] filter_page(ps[i], q) == x
}

proof fn lemma_filter_pages(ps: Seq<PageView>, q: Seq<char>)
    ensures
        forall|k: int|
            0 <= k < filter_pages(ps, q).len() ==> from_some_page(
                ps,
                q,
                #[trigger] filter_pages(ps, q)[k],
            ),
        forall|i: int|
            0 <= i < ps.len() && (#[trigger] filter_page(ps[i], q)).functions.len() > 0
                ==> filter_pages(ps, q).contains(filter_page(ps[i], q)),
        book_wf(ps) ==> book_wf(filter_pages(ps, q)),
    decreases ps.len(),
{
    if ps.len() > 0 {
        let init = ps.drop_last();
        lemma_filter_pages(init, q);
        let r0 = filter_pages(init, q);
        let r = filter_pages(ps, q);
        let last = filter_page(ps.last(), q);
        assert forall|k: int| 0 <= k < r.len() implies from_some_page(ps, q, #[trigger] r[k]) by {
            if k < r0.len() {
                assert(r[k] == r0[k]);
                let i = choose|i: int| 0 <= i < init.len() && #[trigger] filter_page(init[i], q) == r0[k];
                assert(ps[i] == init[i]);
            } else {
                assert(filter_page(ps[ps.len() - 1], q) == r[k]);
            }
            let i = choose|i: int| 0 <= i < ps.len() && #[trigger] filter_page(ps[i], q) == r[k];
        }
        assert forall|i: int|
            0 <= i < ps.len() && (#[trigger] filter_page(ps[i], q)).functions.len() > 0 implies r.contains(
            filter_page(ps[i], q),
        ) by {
            if i < ps.len() - 1 {
                assert(init[i] == ps[i]);
                assert(filter_page(init[i], q).functions.len() > 0);
                let k = choose|k: int| 0 <= k < r0.len() && r0[k] == filter_page(init[i], q);
                assert(r[k] == r0[k]);
            } else {
                assert(r[r.len() - 1] == last);
            }
        }
        if book_wf(ps) {
            assert(book_wf(init));
            assert forall|a: int, b: int|
                0 <= a < r.len() && 0 <= b < r.len() && a != b implies page_id(#[trigger] r[a])
                != page_id(#[trigger] r[b]) by {
                if a < r0.len() && b < r0.len() {
                    assert(r[a] == r0[a] && r[b] == r0[b]);
                } else if a < r0.len() {
                    let i = choose|i: int| 0 <= i < init.len() && #[trigger] filter_page(init[i], q) == r0[a];
                    assert(r[a] == filter_page(ps[i], q));
                    assert(r[b] == last);
                    assert(page_id(r[a]) == page_id(ps[i]));
                    assert(page_id(r[b]) == page_id(ps[ps.len() - 1]));
                } else {
                    let i = choose|i: int| 0 <= i < init.len() && #[trigger] filter_page(init[i], q) == r0[b];
                    assert(r[b] == filter_page(ps[i], q));
                    assert(r[a] == last);
                    assert(page_id(r[b]) == page_id(ps[i]));
                    assert(page_id(r[a]) == page_id(ps[ps.len() - 1]));
                }
            }
            assert forall|a: int| 0 <= a < r.len() implies functions_unique(#[trigger] r[a].functions) by {
                let i = choose|i: int| 0 <= i < ps.len() && #[trigger] filter_page(ps[i], q) == r[a];
                lemma_filter_functions(ps[i], ps[i].functions, q);
            }
        }
    }
}

/// Filtering keeps a well-formed book well formed.
pub proof fn lemma_filter_wf(ps: Seq<PageView>, q: Seq<char>)
    requires
        book_wf(ps),
    ensures
        book_wf(filter_pages(ps, q)),
{
    lemma_filter_pages(ps, q);
}

/// Some page of `ps` has the identifier of `x` and holds `f`.
pub open spec fn on_page_with_id(ps: Seq<PageView>, x: PageView, f: FunctionView) -> bool {
    exists|i: int| 0 <= i < ps.len() && page_id(#[trigger] ps[i]) == page_id(x) && ps[i].functions.contains(f)
}

/// Every function that a filter keeps matches it and comes from the same page
/// of the unfiltered book; every function of the unfiltered book that matches
/// the filter is kept, on the page with the same identifier.
pub proof fn lemma_filter_correct(ps: Seq<PageView>, q: Seq<char>)
    ensures
        forall|k: int, j: int|
            0 <= k < filter_pages(ps, q).len() && 0 <= j < filter_pages(ps, q)[k].functions.len()
                ==> function_matches(
                filter_pages(ps, q)[k],
                #[trigger] filter_pages(ps, q)[k].functions[j],
                q,
            ) && on_page_with_id(ps, filter_pages(ps, q)[k], filter_pages(ps, q)[k].functions[j]),
        forall|i: int, j: int|
            0 <= i < ps.len() && 0 <= j < ps[i].functions.len() && function_matches(
                ps[i],
                #[trigger] ps[i].functions[j],
                q,
            ) ==> on_page_with_id(filter_pages(ps, q), ps[i], ps[i].functions[j]),
{
    let r = filter_pages(ps, q);
    lemma_filter_pages(ps, q);
    assert forall|k: int, j: int| 0 <= k < r.len() && 0 <= j < r[k].functions.len() implies function_matches(
        r[k],
        #[trigger] r[k].functions[j],
        q,
    ) && on_page_with_id(ps, r[k], r[k].functions[j]) by {
        assert(from_some_page(ps, q, r[k]));
        let i = choose|i: int| 0 <= i < ps.len() && #[trigger] filter_page(ps[i], q) == r[k];
        lemma_filter_functions(ps[i], ps[i].functions, q);
        let ff = filter_functions(ps[i], ps[i].functions, q);
        assert(r[k].functions[j] == ff[j]);
        assert(function_matches(ps[i], r[k].functions[j], q));
        assert(page_id(ps[i]) == page_id(r[k]));
        assert(ps[i].functions.contains(r[k].functions[j]));
    }
    assert forall|i: int, j: int|
        0 <= i < ps.len() && 0 <= j < ps[i].functions.len() && function_matches(
            ps[i],
            #[trigger] ps[i].functions[j],
            q,
        ) implies on_page_with_id(r, ps[i], ps[i].functions[j]) by {
        lemma_filter_functions(ps[i], ps[i].functions, q);
        let fp = filter_page(ps[i], q);
        assert(fp.functions.contains(ps[i].functions[j]));
        assert(fp.functions.len() > 0);
        let k = choose|k: int| 0 <= k < r.len() && r[k] == fp;
        assert(r[k].functions.contains(ps[i].functions[j]));
        assert(page_id(r[k]) == page_id(ps[i]));
    }
}

} // verus!
