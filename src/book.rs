use vstd::prelude::*;

verus! {

/// A single executable declaration of a page.
#[derive(Clone, Debug, PartialEq, Eq)]
pub struct Function {
    pub name: String,
    /// Free text written before the block; empty when there is none.
    pub description: String,
    /// The interpreter named on the block's opening line, if any.
    pub interpreter: Option<String>,
    /// The block's lines, each followed by a newline.
    pub script: String,
}

pub struct FunctionView {
    pub name: Seq<char>,
    pub description: Seq<char>,
    pub interpreter: Option<Seq<char>>,
    pub script: Seq<char>,
}

pub open spec fn opt_view(o: Option<String>) -> Option<Seq<char>> {
    match o {
        Some(s) => Some(s@),
        None => None,
    }
}

pub open spec fn strings_view(v: Seq<String>) -> Seq<Seq<char>> {
    v.map_values(|s: String| s@)
}

impl View for Function {
    type V = FunctionView;

    open spec fn view(&self) -> FunctionView {
        FunctionView {
            name: self.name@,
            description: self.description@,
            interpreter: opt_view(self.interpreter),
            script: self.script@,
        }
    }
}

/// A group of functions under one heading of the document.
#[derive(Clone, Debug, PartialEq, Eq)]
pub struct Page {
    /// The text of the page's own heading.
    pub name: String,
    /// The texts of the enclosing headings, outermost first.
    pub categories: Vec<String>,
    /// The page's functions, in document order.
    pub functions: Vec<Function>,
}

pub struct PageView {
    pub name: Seq<char>,
    pub categories: Seq<Seq<char>>,
    pub functions: Seq<FunctionView>,
}

impl View for Page {
    type V = PageView;

    open spec fn view(&self) -> PageView {
        PageView {
            name: self.name@,
            categories: strings_view(self.categories@),
            functions: self.functions@.map_values(|f: Function| f@),
        }
    }
}

/// A loaded document: its pages in document order.
#[derive(Clone, Debug, PartialEq, Eq)]
pub struct Book {
    pub pages: Vec<Page>,
}

impl View for Book {
    type V = Seq<PageView>;

    open spec fn view(&self) -> Seq<PageView> {
        self.pages@.map_values(|p: Page| p@)
    }
}

/// A page is identified by its whole heading path.
pub open spec fn page_id(p: PageView) -> Seq<Seq<char>> {
    p.categories.push(p.name)
}

/// No two functions of the page share a name.
pub open spec fn functions_unique(fs: Seq<FunctionView>) -> bool {
    forall|i: int, j: int|
        0 <= i < fs.len() && 0 <= j < fs.len() && i != j ==> #[trigger] fs[i].name != #[trigger] fs[j].name
}

/// Page identifiers are unique, and function names are unique within each page.
pub open spec fn book_wf(ps: Seq<PageView>) -> bool {
    &&& forall|i: int, j: int|
        0 <= i < ps.len() && 0 <= j < ps.len() && i != j ==> page_id(#[trigger] ps[i]) != page_id(
            #[trigger] ps[j],
        )
    &&& forall|i: int| 0 <= i < ps.len() ==> functions_unique(#[trigger] ps[i].functions)
}

/// The number of functions over all pages.
pub open spec fn total_functions(ps: Seq<PageView>) -> nat
    decreases ps.len(),
{
    if ps.len() == 0 {
        0
    } else {
        total_functions(ps.drop_last()) + ps.last().functions.len()
    }
}

impl Book {
    pub open spec fn wf(&self) -> bool {
        book_wf(self@)
    }

    /// The number of functions over all pages.
    pub fn function_count(&self) -> (r: usize)
        requires
            total_functions(self@) <= usize::MAX,
        ensures
            r == total_functions(self@),
    {
        let mut n: usize = 0;
        let mut i: usize = 0;
        while i < self.pages.len()
            invariant
                i <= self.pages.len(),
                total_functions(self@) <= usize::MAX,
                n == total_functions(self@.take(i as int)),
            decreases self.pages.len() - i,
        {
            proof {
                assert(self@.take(i + 1).drop_last() =~= self@.take(i as int));
                lemma_total_prefix(self@, i + 1);
            }
            n = n + self.pages[i].functions.len();
            i = i + 1;
        }
        assert(self@.take(i as int) =~= self@);
        n
    }
}

/// A prefix never holds more functions than the whole.
pub proof fn lemma_total_prefix(ps: Seq<PageView>, k: int)
    requires
        0 <= k <= ps.len(),
    ensures
        total_functions(ps.take(k)) <= total_functions(ps),
    decreases ps.len() - k,
{
    if k < ps.len() {
        lemma_total_prefix(ps, k + 1);
        assert(ps.take(k + 1).drop_last() =~= ps.take(k));
    } else {
        assert(ps.take(k) =~= ps);
    }
}

} // verus!
