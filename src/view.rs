use vstd::prelude::*;
use crate::book::{Book, FunctionView, Page, PageView};
use crate::flavor::{resolve, ExecutionFlavor, FlavorView, ResolveError, ResolveErrorView};
use crate::text::{chars_of, push_chars};

verus! {

/// One line of a listing: the page (on a page's first function only), the
/// function's name, how it would run, and its description.
pub struct ViewRow {
    pub page: String,
    pub function: String,
    pub context: String,
    pub description: String,
}

pub struct ViewRowView {
    pub page: Seq<char>,
    pub function: Seq<char>,
    pub context: Seq<char>,
    pub description: Seq<char>,
}

impl View for ViewRow {
    type V = ViewRowView;

    open spec fn view(&self) -> ViewRowView {
        ViewRowView {
            page: self.page@,
            function: self.function@,
            context: self.context@,
            description: self.description@,
        }
    }
}

/// The strings of `cs` with `sep` between each two.
pub open spec fn join(cs: Seq<Seq<char>>, sep: Seq<char>) -> Seq<char>
    decreases cs.len(),
{
    if cs.len() == 0 {
        seq![]
    } else if cs.len() == 1 {
        cs[0]
    } else {
        join(cs.drop_last(), sep) + sep + cs.last()
    }
}

/// The page's categories joined by " > ", then " > " and the page's name.
pub open spec fn page_label(p: PageView) -> Seq<char> {
    join(p.categories, " > "@) + " > "@ + p.name
}

/// What a listing shows of a resolution: the flavor, or why there is none.
pub open spec fn context_label(r: Result<FlavorView, ResolveErrorView>) -> Seq<char> {
    match r {
        Ok(FlavorView::ShellScript) => "shell"@,
        Ok(FlavorView::InterpretedScript(t)) => t,
        Err(ResolveErrorView::UnsupportedFlavor(t)) => "unsupported interpreter: "@ + t,
        Err(ResolveErrorView::AmbiguousFlavor) => "ambiguous body"@,
    }
}

pub open spec fn row_of(p: PageView, j: int, f: FunctionView) -> ViewRowView {
    ViewRowView {
        page: if j == 0 {
            page_label(p)
        } else {
            seq![]
        },
        function: f.name,
        context: context_label(resolve(f)),
        description: f.description,
    }
}

pub open spec fn page_rows(p: PageView) -> Seq<ViewRowView> {
    p.functions.map(|j: int, f: FunctionView| row_of(p, j, f))
}

/// The rows of a listing of the pages, in order.
pub open spec fn book_rows(ps: Seq<PageView>) -> Seq<ViewRowView>
    decreases ps.len(),
{
    if ps.len() == 0 {
        seq![]
    } else {
        book_rows(ps.drop_last()) + page_rows(ps.last())
    }
}

pub open spec fn rows_view(rs: Seq<ViewRow>) -> Seq<ViewRowView> {
    rs.map_values(|r: ViewRow| r@)
}

fn append_str(out: &mut String, s: &str)
    ensures
        final(out)@ == old(out)@ + s@,
{
    let cs = chars_of(s);
    push_chars(out, &cs);
}

fn label_of_page(p: &Page) -> (r: String)
    ensures
        r@ == page_label(p@),
{
    let mut out = String::new();
    let mut i: usize = 0;
    assert(p@.categories.take(0) =~= seq![]);
    while i < p.categories.len()
        invariant
            i <= p.categories@.len(),
            out@ == join(p@.categories.take(i as int), " > "@),
        decreases p.categories.len() - i,
    {
        let ghost before = out@;
        assert(p@.categories.take(i + 1).drop_last() =~= p@.categories.take(i as int));
        if i > 0 {
            append_str(&mut out, " > ");
        } else {
            assert(before =~= seq![]);
        }
        append_str(&mut out, p.categories[i].as_str());
        i = i + 1;
        assert(out@ =~= join(p@.categories.take(i as int), " > "@));
    }
    assert(p@.categories.take(i as int) =~= p@.categories);
    append_str(&mut out, " > ");
    append_str(&mut out, p.name.as_str());
    out
}

impl ExecutionFlavor {
    /// How a listing names this flavor.
    pub fn label(&self) -> (r: String)
        ensures
            r@ == context_label(Ok(self@)),
    {
        match self {
            ExecutionFlavor::ShellScript => "shell".to_owned(),
            ExecutionFlavor::InterpretedScript { interpreter } => interpreter.clone(),
        }
    }
}

impl ResolveError {
    /// How a listing names this failure.
    pub fn label(&self) -> (r: String)
        ensures
            r@ == context_label(Err(self@)),
    {
        match self {
            ResolveError::UnsupportedFlavor(t) => {
                let mut out = "unsupported interpreter: ".to_owned();
                append_str(&mut out, t.as_str());
                out
            },
            ResolveError::AmbiguousFlavor => "ambiguous body".to_owned(),
        }
    }
}

/// The rows of a listing of `book`: one per function, each page named on its
/// first function's row; a function without a flavor shows why.
pub fn view_rows(book: &Book) -> (r: Vec<ViewRow>)
    ensures
        rows_view(r@) == book_rows(book@),
{
    let mut rows: Vec<ViewRow> = Vec::new();
    let mut i: usize = 0;
    assert(book@.take(0) =~= seq![]);
    while i < book.pages.len()
        invariant
            i <= book.pages@.len(),
            rows_view(rows@) == book_rows(book@.take(i as int)),
        decreases book.pages.len() - i,
    {
        let page = &book.pages[i];
        let ghost pv = page@;
        let ghost base = rows_view(rows@);
        let mut j: usize = 0;
        assert(page_rows(pv).take(0) =~= seq![]);
        assert(base + page_rows(pv).take(0) =~= base);
        while j < page.functions.len()
            invariant
                j <= page.functions@.len(),
                pv == page@,
                rows_view(rows@) == base + page_rows(pv).take(j as int),
            decreases page.functions.len() - j,
        {
            let f = &page.functions[j];
            let label = if j == 0 {
                label_of_page(page)
            } else {
                String::new()
            };
            let context = match ExecutionFlavor::for_function(f) {
                Ok(flavor) => flavor.label(),
                Err(e) => e.label(),
            };
            let row = ViewRow {
                page: label,
                function: f.name.clone(),
                context,
                description: f.description.clone(),
            };
            let ghost before = rows@;
            rows.push(row);
            proof {
                assert(row@ == row_of(pv, j as int, pv.functions[j as int]));
                assert(page_rows(pv).take(j + 1) =~= page_rows(pv).take(j as int).push(row@));
                assert(rows_view(rows@) =~= rows_view(before).push(row@));
            }
            j = j + 1;
        }
        proof {
            assert(page_rows(pv).take(j as int) =~= page_rows(pv));
            assert(book@.take(i + 1).drop_last() =~= book@.take(i as int));
        }
        i = i + 1;
    }
    assert(book@.take(i as int) =~= book@);
    rows
}

} // verus!
