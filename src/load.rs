use vstd::prelude::*;
use crate::book::{
    book_wf, opt_view, total_functions, Book, functions_unique, page_id, strings_view, Function, FunctionView, Page, PageView,
};
use crate::document::{
    hashes, hashes_from, header_name, header_ok, header_tag, heading_depth, heading_text, is_blank_line,
    is_close, is_fence, is_heading, line_is_blank, line_is_fence, word_end_at,
};
use crate::filter::{filter_pages, lemma_filter_wf};
use crate::text::{chars_of, copy_strings, push_char, push_chars, string_of};

verus! {

/// Why a document could not be loaded.
#[derive(Clone, Debug, PartialEq, Eq)]
pub enum LoadError {
    /// The document could not be read.
    Io(String),
    /// A structural defect: a block before any heading, or a heading path seen twice.
    Parse { line: usize },
    /// A block whose opening line cannot be read, or that is never closed.
    MalformedBlock { line: usize },
    /// Two functions of one page share this name.
    DuplicateFunction(String),
}

pub enum LoadErrorView {
    Io(Seq<char>),
    Parse(nat),
    MalformedBlock(nat),
    DuplicateFunction(Seq<char>),
}

impl View for LoadError {
    type V = LoadErrorView;

    open spec fn view(&self) -> LoadErrorView {
        match self {
            LoadError::Io(m) => LoadErrorView::Io(m@),
            LoadError::Parse { line } => LoadErrorView::Parse(*line as nat),
            LoadError::MalformedBlock { line } => LoadErrorView::MalformedBlock(*line as nat),
            LoadError::DuplicateFunction(n) => LoadErrorView::DuplicateFunction(n@),
        }
    }
}

/// The state of a scan between two lines.
pub struct ScanView {
    pub pages: Seq<PageView>,
    /// The depths of the headings on the current path.
    pub depths: Seq<usize>,
    /// The texts of the headings on the current path.
    pub crumbs: Seq<Seq<char>>,
    /// Descriptive text seen since the last heading or block.
    pub desc: Seq<char>,
    /// The block being read, if any.
    pub open: Option<FunctionView>,
    /// The line on which the block being read opened.
    pub open_line: nat,
}

pub open spec fn init_scan() -> ScanView {
    ScanView {
        pages: seq![],
        depths: seq![],
        crumbs: seq![],
        desc: seq![],
        open: None,
        open_line: 0,
    }
}

/// How many headings of the path stay when a heading of depth `k` comes.
pub open spec fn kept(ds: Seq<usize>, k: usize) -> int
    decreases ds.len(),
{
    if ds.len() > 0 && ds.last() >= k {
        kept(ds.drop_last(), k)
    } else {
        ds.len() as int
    }
}

pub open spec fn add_desc(d: Seq<char>, l: Seq<char>) -> Seq<char> {
    if d.len() == 0 {
        l
    } else {
        d + seq![' '] + l
    }
}

pub open spec fn has_page(ps: Seq<PageView>, id: Seq<Seq<char>>) -> bool {
    exists|i: int| 0 <= i < ps.len() && page_id(#[trigger] ps[i]) == id
}

pub open spec fn has_function(fs: Seq<FunctionView>, name: Seq<char>) -> bool {
    exists|j: int| 0 <= j < fs.len() && (#[trigger] fs[j]).name == name
}

/// Reads line number `n`, whose text is `l`.
pub open spec fn step(s: ScanView, l: Seq<char>, n: nat) -> Result<ScanView, LoadErrorView> {
    match s.open {
        Some(f) => if is_close(l) {
            let p = s.pages.last();
            if has_function(p.functions, f.name) {
                Err(LoadErrorView::DuplicateFunction(f.name))
            } else {
                Ok(
                    ScanView {
                        pages: s.pages.update(
                            s.pages.len() - 1,
                            PageView { functions: p.functions.push(f), ..p },
                        ),
                        open: None,
                        ..s
                    },
                )
            }
        } else {
            Ok(ScanView { open: Some(FunctionView { script: f.script + l.push('\n'), ..f }), ..s })
        },
        None => if is_fence(l) {
            if s.pages.len() == 0 {
                Err(LoadErrorView::Parse(n))
            } else if !header_ok(l) {
                Err(LoadErrorView::MalformedBlock(n))
            } else {
                Ok(
                    ScanView {
                        open: Some(
                            FunctionView {
                                name: header_name(l),
                                description: s.desc,
                                interpreter: header_tag(l),
                                script: seq![],
                            },
                        ),
                        open_line: n,
                        desc: seq![],
                        ..s
                    },
                )
            }
        } else if is_heading(l) {
            let m = kept(s.depths, heading_depth(l));
            let path = s.crumbs.take(m);
            if has_page(s.pages, path.push(heading_text(l))) {
                Err(LoadErrorView::Parse(n))
            } else {
                Ok(
                    ScanView {
                        pages: s.pages.push(
                            PageView { name: heading_text(l), categories: path, functions: seq![] },
                        ),
                        depths: s.depths.take(m).push(heading_depth(l)),
                        crumbs: path.push(heading_text(l)),
                        desc: seq![],
                        ..s
                    },
                )
            }
        } else if is_blank_line(l) {
            Ok(s)
        } else {
            Ok(ScanView { desc: add_desc(s.desc, l), ..s })
        },
    }
}

/// Reads the lines in order, stopping at the first error.
pub open spec fn run(lines: Seq<Seq<char>>) -> Result<ScanView, LoadErrorView>
    decreases lines.len(),
{
    if lines.len() == 0 {
        Ok(init_scan())
    } else {
        match run(lines.drop_last()) {
            Ok(s) => step(s, lines.last(), lines.len()),
            Err(e) => Err(e),
        }
    }
}

/// The finished lines of `t` and the line still being read.
pub open spec fn split(t: Seq<char>) -> (Seq<Seq<char>>, Seq<char>)
    decreases t.len(),
{
    if t.len() == 0 {
        (seq![], seq![])
    } else {
        let (ls, cur) = split(t.drop_last());
        if t.last() == '\n' {
            (ls.push(cur), seq![])
        } else {
            (ls, cur.push(t.last()))
        }
    }
}

/// The lines of `t`, split at each newline; the last may be empty.
pub open spec fn lines_of(t: Seq<char>) -> Seq<Seq<char>> {
    split(t).0.push(split(t).1)
}

/// The pages of the document `t`, or its first defect.
pub open spec fn load_pages(t: Seq<char>) -> Result<Seq<PageView>, LoadErrorView> {
    match run(lines_of(t)) {
        Ok(s) => match s.open {
            Some(_) => Err(LoadErrorView::MalformedBlock(s.open_line)),
            None => Ok(s.pages),
        },
        Err(e) => Err(e),
    }
}

pub open spec fn scan_inv(s: ScanView) -> bool {
    &&& s.depths.len() == s.crumbs.len()
    &&& s.open is Some ==> s.pages.len() > 0
    &&& book_wf(s.pages)
}

struct Scanner {
    pages: Vec<Page>,
    depths: Vec<usize>,
    crumbs: Vec<String>,
    desc: String,
    open: Option<Function>,
    open_line: usize,
}

impl View for Scanner {
    type V = ScanView;

    closed spec fn view(&self) -> ScanView {
        ScanView {
            pages: self.pages@.map_values(|p: Page| p@),
            depths: self.depths@,
            crumbs: strings_view(self.crumbs@),
            desc: self.desc@,
            open: match self.open {
                Some(f) => Some(f@),
                None => None,
            },
            open_line: self.open_line as nat,
        }
    }
}

fn find_function(fs: &Vec<Function>, name: &String) -> (r: bool)
    ensures
        r == has_function(fs@.map_values(|f: Function| f@), name@),
{
    let ghost vs = fs@.map_values(|f: Function| f@);
    let mut i: usize = 0;
    while i < fs.len()
        invariant
            i <= fs@.len(),
            vs == fs@.map_values(|f: Function| f@),
            forall|j: int| 0 <= j < i ==> (#[trigger] vs[j]).name != name@,
        decreases fs.len() - i,
    {
        if fs[i].name == *name {
            assert(vs[i as int].name == name@);
            return true;
        }
        i = i + 1;
    }
    false
}

fn page_has_path(p: &Page, path: &Vec<String>, text: &String) -> (r: bool)
    ensures
        r == (page_id(p@) == strings_view(path@).push(text@)),
{
    let ghost id = page_id(p@);
    let ghost want = strings_view(path@).push(text@);
    if p.categories.len() != path.len() {
        assert(id.len() != want.len());
        return false;
    }
    if !(p.name == *text) {
        assert(id[id.len() - 1] != want[want.len() - 1]);
        return false;
    }
    let mut i: usize = 0;
    while i < path.len()
        invariant
            i <= path@.len(),
            p.categories@.len() == path@.len(),
            id == page_id(p@),
            want == strings_view(path@).push(text@),
            forall|j: int| 0 <= j < i ==> (#[trigger] p.categories@[j])@ == path@[j]@,
        decreases path.len() - i,
    {
        if !(p.categories[i] == path[i]) {
            assert(id[i as int] != want[i as int]);
            return false;
        }
        i = i + 1;
    }
    assert(id =~= want);
    true
}

impl Scanner {
    fn new() -> (r: Scanner)
        ensures
            r@ == init_scan(),
    {
        let r = Scanner {
            pages: Vec::new(),
            depths: Vec::new(),
            crumbs: Vec::new(),
            desc: String::new(),
            open: None,
            open_line: 0,
        };
        assert(r@.pages =~= seq![]);
        assert(r@.crumbs =~= seq![]);
        assert(r@.depths =~= seq![]);
        r
    }

    fn extend_block(&mut self, l: &Vec<char>, n: usize)
        requires
            scan_inv(old(self)@),
            old(self).open is Some,
            !is_close(l@),
        ensures
            step(old(self)@, l@, n as nat) == Ok::<ScanView, LoadErrorView>(final(self)@),
            scan_inv(final(self)@),
    {
        let mut f = self.open.take().unwrap();
        push_chars(&mut f.script, l);
        push_char(&mut f.script, '\n');
        self.open = Some(f);
        assert(f.script@ =~= old(self).open.unwrap().script@ + l@.push('\n'));
    }

    fn add_text(&mut self, l: &Vec<char>, n: usize)
        requires
            scan_inv(old(self)@),
            old(self).open is None,
            !is_fence(l@),
            !is_heading(l@),
            !is_blank_line(l@),
        ensures
            step(old(self)@, l@, n as nat) == Ok::<ScanView, LoadErrorView>(final(self)@),
            scan_inv(final(self)@),
    {
        if self.desc.as_str().is_empty() {
            self.desc = string_of(l, 0, l.len());
            assert(self.desc@ =~= l@);
        } else {
            push_char(&mut self.desc, ' ');
            push_chars(&mut self.desc, l);
            assert(self.desc@ =~= old(self).desc@ + seq![' '] + l@);
        }
    }

    fn open_block(&mut self, l: &Vec<char>, n: usize) -> (r: Result<(), LoadError>)
        requires
            scan_inv(old(self)@),
            old(self).open is None,
            is_fence(l@),
        ensures
            match r {
                Ok(_) => step(old(self)@, l@, n as nat) == Ok::<ScanView, LoadErrorView>(
                    final(self)@,
                )
                    && scan_inv(final(self)@),
                Err(e) => step(old(self)@, l@, n as nat) == Err::<ScanView, LoadErrorView>(e@),
            },
    {
        if self.pages.len() == 0 {
            return Err(LoadError::Parse { line: n });
        }
        let e = word_end_at(l, 3);
        let ok = e > 3 && (e == l.len() || (e + 1 < l.len() && word_end_at(l, e + 1) == l.len()));
        if !ok {
            return Err(LoadError::MalformedBlock { line: n });
        }
        let name = string_of(l, 3, e);
        let interpreter = if e >= l.len() {
            None
        } else {
            Some(string_of(l, e + 1, l.len()))
        };
        let description = self.desc.clone();
        self.open = Some(Function { name, description, interpreter, script: String::new() });
        self.open_line = n;
        self.desc = String::new();
        proof {
            let f = self.open.unwrap();
            assert(f@.interpreter == header_tag(l@));
            assert(f@.script =~= seq![]);
            assert(self@.desc =~= seq![]);
        }
        Ok(())
    }

    fn close_block(&mut self, l: &Vec<char>, n: usize) -> (r: Result<(), LoadError>)
        requires
            scan_inv(old(self)@),
            old(self).open is Some,
            is_close(l@),
        ensures
            match r {
                Ok(_) => step(old(self)@, l@, n as nat) == Ok::<ScanView, LoadErrorView>(
                    final(self)@,
                )
                    && scan_inv(final(self)@),
                Err(e) => step(old(self)@, l@, n as nat) == Err::<ScanView, LoadErrorView>(e@),
            },
    {
        let f = self.open.take().unwrap();
        let mut page = self.pages.pop().unwrap();
        let ghost old_pages = old(self)@.pages;
        assert(page@ == old_pages.last());
        if find_function(&page.functions, &f.name) {
            return Err(LoadError::DuplicateFunction(f.name));
        }
        let ghost fv = f@;
        page.functions.push(f);
        self.pages.push(page);
        proof {
            let last = old_pages.last();
            assert(page@.functions =~= last.functions.push(fv));
            assert(page@.categories == last.categories);
            assert(self@.pages =~= old_pages.update(
                old_pages.len() - 1,
                PageView { functions: last.functions.push(fv), ..last },
            ));
            let ps = self@.pages;
            assert forall|i: int, j: int|
                0 <= i < ps.len() && 0 <= j < ps.len() && i != j implies page_id(
                #[trigger] ps[i],
            ) != page_id(#[trigger] ps[j]) by {
                assert(page_id(ps[i]) == page_id(old_pages[i]));
                assert(page_id(ps[j]) == page_id(old_pages[j]));
            }
            assert forall|i: int| 0 <= i < ps.len() implies functions_unique(
                #[trigger] ps[i].functions,
            ) by {
                if i == ps.len() - 1 {
                    let fs = ps[i].functions;
                    assert forall|a: int, b: int|
                        0 <= a < fs.len() && 0 <= b < fs.len() && a != b implies #[trigger] fs[a].name
                        != #[trigger] fs[b].name by {
                        if a == fs.len() - 1 {
                            assert(fs[b] == last.functions[b]);
                        } else if b == fs.len() - 1 {
                            assert(fs[a] == last.functions[a]);
                        }
                    }
                }
            }
        }
        Ok(())
    }

    #[verifier::loop_isolation(false)]
    fn enter_heading(&mut self, l: &Vec<char>, h: usize, n: usize) -> (r: Result<(), LoadError>)
        requires
            scan_inv(old(self)@),
            old(self).open is None,
            !is_fence(l@),
            is_heading(l@),
            h == hashes_from(l@, 0),
        ensures
            match r {
                Ok(_) => step(old(self)@, l@, n as nat) == Ok::<ScanView, LoadErrorView>(
                    final(self)@,
                )
                    && scan_inv(final(self)@),
                Err(e) => step(old(self)@, l@, n as nat) == Err::<ScanView, LoadErrorView>(e@),
            },
    {
        let ghost s0 = old(self)@;
        let len = l.len();
        assert(h < len);
        let text = string_of(l, h + 1, len);
        let mut m: usize = self.depths.len();
        assert(self.depths@.take(m as int) =~= self.depths@);
        while m > 0 && self.depths[m - 1] >= h
            invariant
                m <= self.depths@.len(),
                self@ == s0,
                kept(self.depths@.take(m as int), h) == kept(self.depths@, h),
            decreases m,
        {
            assert(self.depths@.take(m as int).drop_last() =~= self.depths@.take(m - 1));
            m = m - 1;
        }
        assert(kept(self.depths@.take(m as int), h) == m);
        self.depths.truncate(m);
        self.crumbs.truncate(m);
        assert(self@.crumbs =~= s0.crumbs.take(m as int));
        let mut i: usize = 0;
        while i < self.pages.len()
            invariant
                i <= self.pages@.len(),
                self@.pages == s0.pages,
                self@.crumbs == s0.crumbs.take(m as int),
                forall|j: int|
                    0 <= j < i ==> page_id(#[trigger] s0.pages[j]) != self@.crumbs.push(text@),
            decreases self.pages.len() - i,
        {
            if page_has_path(&self.pages[i], &self.crumbs, &text) {
                assert(page_id(s0.pages[i as int]) == self@.crumbs.push(text@));
                return Err(LoadError::Parse { line: n });
            }
            i = i + 1;
        }
        let categories = copy_strings(&self.crumbs);
        let ghost cv = strings_view(categories@);
        self.pages.push(Page { name: text.clone(), categories, functions: Vec::new() });
        self.crumbs.push(text);
        self.depths.push(h);
        self.desc = String::new();
        proof {
            let newp = PageView { name: text@, categories: s0.crumbs.take(m as int), functions: seq![] };
            assert(self@.pages.last().functions =~= seq![]);
            assert(self@.pages =~= s0.pages.push(newp));
            assert(self@.crumbs =~= s0.crumbs.take(m as int).push(text@));
            assert(self@.depths =~= s0.depths.take(m as int).push(h));
            assert(self@.desc =~= seq![]);
            let ps = self@.pages;
            assert forall|a: int, b: int|
                0 <= a < ps.len() && 0 <= b < ps.len() && a != b implies page_id(
                #[trigger] ps[a],
            ) != page_id(#[trigger] ps[b]) by {
                if a == ps.len() - 1 {
                    assert(page_id(ps[a]) =~= s0.crumbs.take(m as int).push(text@));
                } else if b == ps.len() - 1 {
                    assert(page_id(ps[b]) =~= s0.crumbs.take(m as int).push(text@));
                }
            }
            assert forall|a: int| 0 <= a < ps.len() implies functions_unique(
                #[trigger] ps[a].functions,
            ) by {
                if a < ps.len() - 1 {
                    assert(ps[a] == s0.pages[a]);
                }
            }
        }
        Ok(())
    }

    fn step(&mut self, l: &Vec<char>, n: usize) -> (r: Result<(), LoadError>)
        requires
            scan_inv(old(self)@),
        ensures
            match r {
                Ok(_) => step(old(self)@, l@, n as nat) == Ok::<ScanView, LoadErrorView>(
                    final(self)@,
                )
                    && scan_inv(final(self)@),
                Err(e) => step(old(self)@, l@, n as nat) == Err::<ScanView, LoadErrorView>(e@),
            },
    {
        if self.open.is_some() {
            if line_is_fence(l) && l.len() == 3 {
                self.close_block(l, n)
            } else {
                self.extend_block(l, n);
                Ok(())
            }
        } else if line_is_fence(l) {
            self.open_block(l, n)
        } else {
            let h = hashes(l);
            if 1 <= h && h < l.len() && l[h] == ' ' {
                self.enter_heading(l, h, n)
            } else if line_is_blank(l) {
                Ok(())
            } else {
                self.add_text(l, n);
                Ok(())
            }
        }
    }
}


pub open spec fn is_prefix<A>(a: Seq<A>, b: Seq<A>) -> bool {
    a.len() <= b.len() && b.take(a.len() as int) == a
}

proof fn lemma_split_grows(t: Seq<char>, j: int, k: int)
    requires
        0 <= j <= k <= t.len(),
    ensures
        is_prefix(split(t.take(j)).0, split(t.take(k)).0),
    decreases k - j,
{
    if j < k {
        lemma_split_grows(t, j, k - 1);
        let a = split(t.take(j)).0;
        let b = split(t.take(k - 1)).0;
        let c = split(t.take(k)).0;
        assert(t.take(k).drop_last() =~= t.take(k - 1));
        assert(c.take(b.len() as int) =~= b);
        assert(c.take(a.len() as int) =~= b.take(a.len() as int));
    } else {
        let a = split(t.take(j)).0;
        assert(a.take(a.len() as int) =~= a);
    }
}

/// The lines finished within the first `i` characters open the document's lines.
proof fn lemma_lines_prefix(t: Seq<char>, i: int)
    requires
        0 <= i <= t.len(),
    ensures
        is_prefix(split(t.take(i)).0, lines_of(t)),
{
    lemma_split_grows(t, i, t.len() as int);
    assert(t.take(t.len() as int) =~= t);
    let a = split(t.take(i)).0;
    assert(lines_of(t).take(a.len() as int) =~= split(t).0.take(a.len() as int));
}

/// Once the scan of a prefix fails, the scan of the whole fails the same way.
proof fn lemma_run_err(ls: Seq<Seq<char>>, k: int)
    requires
        0 <= k <= ls.len(),
        run(ls.take(k)) is Err,
    ensures
        run(ls) == run(ls.take(k)),
    decreases ls.len(),
{
    if k == ls.len() {
        assert(ls.take(k) =~= ls);
    } else {
        assert(ls.drop_last().take(k) =~= ls.take(k));
        lemma_run_err(ls.drop_last(), k);
    }
}

pub open spec fn pages_view(ps: Seq<Page>) -> Seq<PageView> {
    ps.map_values(|p: Page| p@)
}

pub open spec fn load_view(r: Result<Vec<Page>, LoadError>) -> Result<Seq<PageView>, LoadErrorView> {
    match r {
        Ok(ps) => Ok(pages_view(ps@)),
        Err(e) => Err(e@),
    }
}

/// Reads the pages of a document given as characters.
pub fn scan_pages(text: &Vec<char>) -> (r: Result<Vec<Page>, LoadError>)
    requires
        text@.len() < usize::MAX,
    ensures
        load_view(r) == load_pages(text@),
        r is Ok ==> book_wf(pages_view(r->Ok_0@)),
{
    let mut sc = Scanner::new();
    let mut cur: Vec<char> = Vec::new();
    let ghost mut done: Seq<Seq<char>> = seq![];
    let mut n: usize = 0;
    let mut i: usize = 0;
    assert(text@.take(0) =~= seq![]);
    while i < text.len()
        invariant
            i <= text@.len() < usize::MAX,
            split(text@.take(i as int)) == (done, cur@),
            n == done.len(),
            n <= i,
            run(done) == Ok::<ScanView, LoadErrorView>(sc@),
            scan_inv(sc@),
        decreases text.len() - i,
    {
        let c = text[i];
        assert(text@.take(i + 1).drop_last() =~= text@.take(i as int));
        if c == '\n' {
            let ghost lines = done.push(cur@);
            assert(lines.drop_last() =~= done);
            match sc.step(&cur, n + 1) {
                Ok(()) => {},
                Err(e) => {
                    proof {
                        lemma_lines_prefix(text@, i + 1);
                        lemma_run_err(lines_of(text@), lines.len() as int);
                    }
                    return Err(e);
                },
            }
            proof {
                done = lines;
            }
            cur = Vec::new();
            n = n + 1;
            assert(cur@ =~= seq![]);
        } else {
            cur.push(c);
        }
        i = i + 1;
    }
    assert(text@.take(i as int) =~= text@);
    let ghost lines = done.push(cur@);
    assert(lines.drop_last() =~= done);
    match sc.step(&cur, n + 1) {
        Ok(()) => {},
        Err(e) => {
            return Err(e);
        },
    }
    match sc.open {
        Some(_) => Err(LoadError::MalformedBlock { line: sc.open_line }),
        None => {
            assert(pages_view(sc.pages@) == sc@.pages);
            Ok(sc.pages)
        },
    }
}


/// A document's book: its pages, narrowed by the filter when one is given.
pub open spec fn load_book(t: Seq<char>, filter: Option<Seq<char>>) -> Result<
    Seq<PageView>,
    LoadErrorView,
> {
    match load_pages(t) {
        Ok(ps) => match filter {
            Some(q) => Ok(filter_pages(ps, q)),
            None => Ok(ps),
        },
        Err(e) => Err(e),
    }
}

pub open spec fn book_result_view(r: Result<Book, LoadError>) -> Result<
    Seq<PageView>,
    LoadErrorView,
> {
    match r {
        Ok(b) => Ok(b@),
        Err(e) => Err(e@),
    }
}

impl Book {
    /// Loads the document `text`, keeping only what `filter` matches when one is given.
    pub fn from_text(text: &str, filter: Option<String>) -> (r: Result<Book, LoadError>)
        requires
            text@.len() < usize::MAX,
        ensures
            book_result_view(r) == load_book(text@, opt_view(filter)),
            r is Ok ==> r->Ok_0.wf(),
    {
        let cs = chars_of(text);
        match scan_pages(&cs) {
            Err(e) => Err(e),
            Ok(pages) => {
                let book = Book { pages };
                match filter {
                    None => Ok(book),
                    Some(q) => {
                        proof {
                            lemma_filter_wf(book@, q@);
                        }
                        Ok(book.filtered(q.as_str()))
                    },
                }
            },
        }
    }
}

/// How many blocks the fence lines of `lines` close, and whether one is left open.
pub open spec fn block_scan(lines: Seq<Seq<char>>) -> (nat, bool)
    decreases lines.len(),
{
    if lines.len() == 0 {
        (0, false)
    } else {
        let (c, open) = block_scan(lines.drop_last());
        let l = lines.last();
        if open {
            if is_close(l) {
                (c + 1, false)
            } else {
                (c, true)
            }
        } else {
            (c, is_fence(l))
        }
    }
}

/// The number of complete blocks in the document `t`.
pub open spec fn recognized_blocks(t: Seq<char>) -> nat {
    block_scan(lines_of(t)).0
}

proof fn lemma_run_counts(ls: Seq<Seq<char>>)
    requires
        run(ls) is Ok,
    ensures
        total_functions(run(ls)->Ok_0.pages) == block_scan(ls).0,
        run(ls)->Ok_0.open is Some <==> block_scan(ls).1,
        run(ls)->Ok_0.open is Some ==> run(ls)->Ok_0.pages.len() > 0,
    decreases ls.len(),
{
    if ls.len() > 0 {
        lemma_run_counts(ls.drop_last());
        let s0 = run(ls.drop_last())->Ok_0;
        let s = run(ls)->Ok_0;
        let l = ls.last();
        if s0.open is Some && is_close(l) {
            assert(s.pages.drop_last() =~= s0.pages.drop_last());
        } else if s0.open is None && !is_fence(l) && is_heading(l) {
            assert(s.pages.drop_last() =~= s0.pages);
        }
    }
}

/// Loading without a filter gives one function for each complete block of the document.
pub proof fn lemma_function_count(t: Seq<char>)
    requires
        load_book(t, None) is Ok,
    ensures
        total_functions(load_book(t, None)->Ok_0) == recognized_blocks(t),
{
    lemma_run_counts(lines_of(t));
}

/// Loading the same document with the same filter twice gives equal books, or equal errors.
pub proof fn lemma_load_repeatable(t1: Seq<char>, t2: Seq<char>, f1: Option<Seq<char>>, f2: Option<Seq<char>>)
    requires
        t1 == t2,
        f1 == f2,
    ensures
        load_book(t1, f1) == load_book(t2, f2),
{
}

} // verus!
