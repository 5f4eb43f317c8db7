//! Page structure widgets: breadcrumbs, pagination, settings rows, the
//! status bar and tabs. The paint lives with the UI; here are the models and
//! the decisions (which page buttons show, which page or tab a click picks).

use vstd::prelude::*;
use crate::strs::{decimal, spec_decimal};

verus! {

/* ---------------- breadcrumbs ---------------- */

/// A breadcrumb trail; every item but the last is a link.
pub struct Crumbs<'a> {
    items: &'a [&'a str],
}

impl<'a> Crumbs<'a> {
    pub fn new(items: &'a [&'a str]) -> (c: Crumbs<'a>)
        ensures
            c.spec_items() == items,
    {
        Crumbs { items }
    }

    pub closed spec fn spec_items(&self) -> &'a [&'a str] {
        self.items
    }

    /// The index of the current (last, plain-text) crumb; every crumb before
    /// it is a link.
    pub fn current(&self) -> (i: usize)
        ensures
            i == if self.spec_items()@.len() == 0 { 0 } else { self.spec_items()@.len() - 1 },
    {
        if self.items.len() == 0 {
            0
        } else {
            self.items.len() - 1
        }
    }

    /// A click on crumb `i`: an ancestor (any crumb before the current one)
    /// is reported; the current crumb is plain text.
    pub fn click(&self, i: usize) -> (r: Option<usize>)
        ensures
            r == if i + 1 < self.spec_items()@.len() { Some(i) } else { None },
    {
        if i < self.items.len() && i + 1 < self.items.len() {
            Some(i)
        } else {
            None
        }
    }
}

/* ---------------- pagination ---------------- */

/// Page controls with ellipsis windows for long ranges.
pub struct Pagination<'a> {
    page: &'a mut usize,
    pages: usize,
}

/// What the user did on a pagination control.
#[derive(Clone, Copy, Debug, PartialEq, Eq, Structural)]
pub enum PageAction {
    /// The `‹` button.
    Prev,
    /// The `›` button.
    Next,
    /// A numbered page button (zero-based page).
    Goto(usize),
}

/// The page buttons for `page` of `pages`: every page up to seven pages;
/// beyond that the first and last page, the pages next to `page`, and an
/// ellipsis (`None`) for each gap.
pub open spec fn spec_window(page: int, pages: int) -> Seq<Option<usize>> {
    if pages <= 7 {
        Seq::new(pages as nat, |i: int| Some(i as usize))
    } else {
        let lo = if page - 1 > 1 { page - 1 } else { 1 };
        let hi = if page + 1 < pages - 2 { page + 1 } else { pages - 2 };
        let mid = if lo <= hi {
            Seq::new((hi - lo + 1) as nat, |k: int| Some((lo + k) as usize))
        } else {
            Seq::empty()
        };
        seq![Some(0usize)] + (if lo > 1 { seq![None] } else { Seq::empty() }) + mid + (if hi
            < pages - 2 {
            seq![None]
        } else {
            Seq::empty()
        }) + seq![Some((pages - 1) as usize)]
    }
}

/// How many ellipses a window holds.
pub open spec fn gaps(w: Seq<Option<usize>>) -> nat
    decreases w.len(),
{
    if w.len() == 0 {
        0
    } else {
        (if w.last() is None { 1nat } else { 0nat }) + gaps(w.drop_last())
    }
}

proof fn lemma_gaps_concat(x: Seq<Option<usize>>, y: Seq<Option<usize>>)
    ensures
        gaps(x + y) == gaps(x) + gaps(y),
    decreases y.len(),
{
    if y.len() == 0 {
        assert(x + y == x);
    } else {
        assert((x + y).drop_last() == x + y.drop_last());
        lemma_gaps_concat(x, y.drop_last());
    }
}

proof fn lemma_gaps_pages(n: nat, f: spec_fn(int) -> Option<usize>)
    requires
        forall|i: int| 0 <= i < n ==> #[trigger] f(i) is Some,
    ensures
        gaps(Seq::new(n, f)) == 0,
    decreases n,
{
    if n > 0 {
        assert(Seq::new(n, f).drop_last() == Seq::new((n - 1) as nat, f));
        lemma_gaps_pages((n - 1) as nat, f);
    }
}

/// The window beyond seven pages, spelled out: its head, its run of
/// consecutive pages, and its tail.
proof fn lemma_window_shape(page: int, pages: int)
    requires
        pages > 7,
        0 <= page < usize::MAX,
        pages <= usize::MAX,
    ensures
        ({
            let lo = if page - 1 > 1 { page - 1 } else { 1 };
            let hi = if page + 1 < pages - 2 { page + 1 } else { pages - 2 };
            let head: Seq<Option<usize>> = if lo > 1 { seq![Some(0usize), None] } else { seq![Some(0usize)] };
            let n = if lo <= hi { hi - lo + 1 } else { 0 };
            let tail: Seq<Option<usize>> = if hi < pages - 2 { seq![None, Some((pages - 1) as usize)] } else { seq![Some((pages - 1) as usize)] };
            spec_window(page, pages) =~= head + Seq::new(n as nat, |k: int| Some((lo + k) as usize)) + tail
        }),
{
}

/// The window's page numbers rise from the first page to the last, at most
/// two gaps stand in it, and it shows the current page.
#[verifier::rlimit(60)]
#[verifier::spinoff_prover]
proof fn lemma_window_props(page: int, pages: int)
    requires
        0 <= page < usize::MAX,
        7 < pages <= usize::MAX,
    ensures
        ({
            let w = spec_window(page, pages);
            &&& w.len() > 0 && w[0] == Some(0usize) && w.last() == Some((pages - 1) as usize)
            &&& gaps(w) <= 2
            &&& page < pages ==> w.contains(Some(page as usize))
            &&& forall|i: int, j: int|
                #![trigger w[i], w[j]]
                0 <= i < j < w.len() && w[i] is Some && w[j] is Some ==> w[i]->0 < w[j]->0
            &&& forall|i: int| 0 <= i < w.len() && w[i] is Some ==> #[trigger] w[i]->0 < pages
        }),
{
    let w = spec_window(page, pages);
    let lo = if page - 1 > 1 { page - 1 } else { 1 };
    let hi = if page + 1 < pages - 2 { page + 1 } else { pages - 2 };
    let head: Seq<Option<usize>> = if lo > 1 { seq![Some(0usize), None] } else { seq![Some(0usize)] };
    let n = if lo <= hi { hi - lo + 1 } else { 0 };
    let f = |k: int| Some((lo + k) as usize);
    let mid = Seq::new(n as nat, f);
    let tail: Seq<Option<usize>> = if hi < pages - 2 { seq![None, Some((pages - 1) as usize)] } else { seq![Some((pages - 1) as usize)] };
    lemma_window_shape(page, pages);
    assert(w == head + mid + tail);
    lemma_gaps_concat(head, mid);
    lemma_gaps_concat(head + mid, tail);
    lemma_gaps_pages(n as nat, f);
    if lo > 1 {
        assert(head.drop_last() =~= seq![Some(0usize)]);
        assert(seq![Some(0usize)].drop_last() =~= Seq::<Option<usize>>::empty());
    } else {
        assert(head.drop_last() =~= Seq::<Option<usize>>::empty());
    }
    if hi < pages - 2 {
        assert(tail.drop_last() =~= seq![None]);
        assert(seq![None].drop_last() =~= Seq::<Option<usize>>::empty());
    } else {
        assert(tail.drop_last() =~= Seq::<Option<usize>>::empty());
    }
    let hl = head.len() as int;
    // The value at each index that holds a page.
    assert forall|i: int| 0 <= i < w.len() && w[i] is Some implies #[trigger] w[i]->0 == (if i == 0 {
        0
    } else if i == w.len() - 1 {
        pages - 1
    } else {
        lo + (i - hl)
    }) && (0 < i < w.len() - 1 ==> hl <= i < hl + n) by {
        if i < hl {
            assert(w[i] == head[i]);
        } else if i < hl + n {
            assert(w[i] == mid[i - hl]);
        } else {
            assert(w[i] == tail[i - hl - n]);
        }
    }
    assert(w[0] == head[0]);
    assert(w.last() == tail.last());
    assert forall|i: int, j: int|
        #![trigger w[i], w[j]]
        0 <= i < j < w.len() && w[i] is Some && w[j] is Some implies w[i]->0 < w[j]->0 by {
        assert(w[i]->0 == (if i == 0 { 0 } else if i == w.len() - 1 { pages - 1 } else { lo + (i - hl) }));
        assert(w[j]->0 == (if j == 0 { 0 } else if j == w.len() - 1 { pages - 1 } else { lo + (j - hl) }));
        if 0 < i < w.len() - 1 {
            assert(hl <= i < hl + n);
        }
        if 0 < j < w.len() - 1 {
            assert(hl <= j < hl + n);
        }
    }
    assert forall|i: int| 0 <= i < w.len() && w[i] is Some implies #[trigger] w[i]->0 < pages by {
        assert(w[i]->0 == (if i == 0 { 0 } else if i == w.len() - 1 { pages - 1 } else { lo + (i - hl) }));
        if 0 < i < w.len() - 1 {
            assert(hl <= i < hl + n);
        }
    }
    assert(gaps(mid) == 0);
    reveal_with_fuel(gaps, 3);
    assert(gaps(head) <= 1);
    assert(gaps(tail) <= 1);
    assert(gaps(w) <= 2);
    if page < pages {
        if page == 0 {
            assert(w[0] == Some(page as usize));
        } else if page == pages - 1 {
            assert(w[w.len() - 1] == Some(page as usize));
        } else {
            assert(w[hl + (page - lo)] == Some(page as usize));
        }
    }
}

impl<'a> Pagination<'a> {
    /// `page` is zero-based; `pages` is the total count.
    pub fn new(page: &'a mut usize, pages: usize) -> (p: Pagination<'a>)
        ensures
            p.spec_pages() == pages,
            p.spec_page() == *old(page),
    {
        Pagination { page, pages }
    }

    pub closed spec fn spec_pages(&self) -> usize {
        self.pages
    }

    pub closed spec fn spec_page(&self) -> usize {
        *self.page
    }

    /// The visible page buttons: always first/last, a window around the
    /// current page, `None` = ellipsis.
    pub fn window(page: usize, pages: usize) -> (w: Vec<Option<usize>>)
        requires
            pages > 7 ==> page < usize::MAX,
        ensures
            w@ == spec_window(page as int, pages as int),
            pages > 0 ==> w@.len() > 0 && w@[0] == Some(0usize) && w@.last() == Some(
                (pages - 1) as usize,
            ),
            pages <= 7 ==> w@.len() == pages && gaps(w@) == 0,
            gaps(w@) <= 2,
            page < pages ==> w@.contains(Some(page)),
            forall|i: int, j: int|
                #![trigger w@[i], w@[j]]
                0 <= i < j < w@.len() && w@[i] is Some && w@[j] is Some ==> w@[i]->0 < w@[j]->0,
            forall|i: int| 0 <= i < w@.len() && w@[i] is Some ==> #[trigger] w@[i]->0 < pages,
    {
        let mut items: Vec<Option<usize>> = Vec::new();
        if pages <= 7 {
            let mut i: usize = 0;
            while i < pages
                invariant
                    i <= pages,
                    items@ == Seq::new(i as nat, |k: int| Some(k as usize)),
                decreases pages - i,
            {
                items.push(Some(i));
                assert(items@ =~= Seq::new((i + 1) as nat, |k: int| Some(k as usize)));
                i += 1;
            }
            proof {
                lemma_gaps_pages(pages as nat, |k: int| Some(k as usize));
                if page < pages {
                    assert(items@[page as int] == Some(page));
                }
            }
            return items;
        }
        items.push(Some(0));
        let lo = if page >= 2 { page - 1 } else { 1 };
        let hi = if page + 1 < pages - 2 { page + 1 } else { pages - 2 };
        let ghost head: Seq<Option<usize>> = if lo > 1 { seq![Some(0usize), None] } else { seq![Some(0usize)] };
        if lo > 1 {
            items.push(None);
        }
        assert(items@ =~= head);
        let mut i = lo;
        while i <= hi
            invariant
                lo <= i,
                hi <= pages - 2,
                lo <= hi ==> i <= hi + 1,
                lo > hi ==> i == lo,
                items@ == head + Seq::new((i - lo) as nat, |k: int| Some((lo + k) as usize)),
            decreases hi + 1 - i,
        {
            items.push(Some(i));
            assert(items@ =~= head + Seq::new((i + 1 - lo) as nat, |k: int| Some((lo + k) as usize)));
            i += 1;
        }
        if hi < pages - 2 {
            items.push(None);
        }
        items.push(Some(pages - 1));
        proof {
            lemma_window_shape(page as int, pages as int);
            assert(items@ =~= spec_window(page as int, pages as int));
            lemma_window_props(page as int, pages as int);
        }
        items
    }

    /// The page a control action leads to from `page` of `pages`: `‹` steps
    /// back (not below the first page), `›` steps forward (not past the
    /// last), a page button picks its page.
    pub fn target(page: usize, pages: usize, action: PageAction) -> (next: usize)
        requires
            page < usize::MAX,
        ensures
            next == match action {
                PageAction::Prev => if page == 0 { 0 } else { (page - 1) as usize },
                PageAction::Next => if page + 1 <= pages - 1 { (page + 1) as usize } else if pages
                    == 0 {
                    0
                } else {
                    (pages - 1) as usize
                },
                PageAction::Goto(i) => i,
            },
    {
        match action {
            PageAction::Prev => if page == 0 {
                0
            } else {
                page - 1
            },
            PageAction::Next => {
                let last = if pages == 0 {
                    0
                } else {
                    pages - 1
                };
                if page + 1 <= last {
                    page + 1
                } else {
                    last
                }
            },
            PageAction::Goto(i) => i,
        }
    }

    /// Whether a control is live: `‹` is disabled on the first page, `›`
    /// on the last, and a click on the current page's button changes
    /// nothing.
    pub open spec fn spec_enabled(page: int, pages: int, action: PageAction) -> bool {
        match action {
            PageAction::Prev => page > 0,
            PageAction::Next => page + 1 < pages,
            PageAction::Goto(i) => i != page,
        }
    }

    /// Applies a click on a control to the bound page; returns whether the
    /// page changed. Disabled controls (see [`Pagination::spec_enabled`])
    /// leave it as it was.
    pub fn apply(&mut self, action: PageAction) -> (changed: bool)
        requires
            old(self).spec_page() < usize::MAX,
        ensures
            final(self).spec_pages() == old(self).spec_pages(),
            changed == Self::spec_enabled(old(self).spec_page() as int, old(self).spec_pages() as int, action),
            changed ==> final(self).spec_page() == match action {
                PageAction::Prev => (old(self).spec_page() - 1) as usize,
                PageAction::Next => (old(self).spec_page() + 1) as usize,
                PageAction::Goto(i) => i,
            },
            !changed ==> final(self).spec_page() == old(self).spec_page(),
    {
        let page = *self.page;
        let enabled = match action {
            PageAction::Prev => page > 0,
            PageAction::Next => page + 1 < self.pages,
            PageAction::Goto(i) => i != page,
        };
        if !enabled {
            return false;
        }
        *self.page = Pagination::target(page, self.pages, action);
        true
    }

    /// The page as it now stands.
    pub fn page(&self) -> (p: usize)
        ensures
            p == self.spec_page(),
    {
        *self.page
    }
}

/* ---------------- settings ---------------- */

/// A titled group of settings rows.
pub struct SettingsSection<'a> {
    title: &'a str,
    sub: Option<&'a str>,
}

impl<'a> SettingsSection<'a> {
    pub fn new(title: &'a str) -> (s: SettingsSection<'a>)
        ensures
            s.spec_title() == title,
            s.spec_sub() is None,
    {
        SettingsSection { title, sub: None }
    }

    /// A secondary line under the title.
    pub fn sub(self, sub: &'a str) -> (s: SettingsSection<'a>)
        ensures
            s.spec_title() == self.spec_title(),
            s.spec_sub() == Some(sub),
    {
        SettingsSection { sub: Some(sub), ..self }
    }

    pub closed spec fn spec_title(&self) -> &'a str {
        self.title
    }

    pub closed spec fn spec_sub(&self) -> Option<&'a str> {
        self.sub
    }
}

/// One label (plus optional help text) and its control.
pub struct SettingsRow<'a> {
    label: &'a str,
    help: Option<&'a str>,
}

impl<'a> SettingsRow<'a> {
    pub fn new(label: &'a str) -> (r: SettingsRow<'a>)
        ensures
            r.spec_label() == label,
            r.spec_help() is None,
    {
        SettingsRow { label, help: None }
    }

    pub fn help(self, help: &'a str) -> (r: SettingsRow<'a>)
        ensures
            r.spec_label() == self.spec_label(),
            r.spec_help() == Some(help),
    {
        SettingsRow { help: Some(help), ..self }
    }

    pub closed spec fn spec_label(&self) -> &'a str {
        self.label
    }

    pub closed spec fn spec_help(&self) -> Option<&'a str> {
        self.help
    }
}

/* ---------------- status bar ---------------- */

/// A bottom bar with left text and optional right-aligned text.
pub struct StatusBar<'a> {
    left: &'a str,
    right: Option<&'a str>,
}

impl<'a> StatusBar<'a> {
    pub fn new(left: &'a str) -> (b: StatusBar<'a>)
        ensures
            b.spec_left() == left,
            b.spec_right() is None,
    {
        StatusBar { left, right: None }
    }

    pub fn right(self, right: &'a str) -> (b: StatusBar<'a>)
        ensures
            b.spec_left() == self.spec_left(),
            b.spec_right() == Some(right),
    {
        StatusBar { right: Some(right), ..self }
    }

    pub closed spec fn spec_left(&self) -> &'a str {
        self.left
    }

    pub closed spec fn spec_right(&self) -> Option<&'a str> {
        self.right
    }
}

/* ---------------- tabs ---------------- */

/// One tab: a label, an optional count chip, and whether it can be picked.
pub struct TabItem<'a> {
    pub label: &'a str,
    pub count: Option<u32>,
    pub disabled: bool,
}

impl<'a> TabItem<'a> {
    pub fn new(label: &'a str) -> (t: TabItem<'a>)
        ensures
            t.label == label,
            t.count is None,
            !t.disabled,
    {
        TabItem { label, count: None, disabled: false }
    }

    pub fn count(self, count: u32) -> (t: TabItem<'a>)
        ensures
            t.label == self.label,
            t.count == Some(count),
            t.disabled == self.disabled,
    {
        TabItem { count: Some(count), ..self }
    }

    pub fn disabled(self, disabled: bool) -> (t: TabItem<'a>)
        ensures
            t.label == self.label,
            t.count == self.count,
            t.disabled == disabled,
    {
        TabItem { disabled, ..self }
    }

    /// The tab's text: its label, then two spaces and the count when it has
    /// one.
    pub fn text(&self) -> (out: String)
        ensures
            out@ == match self.count {
                Some(c) => self.label@ + seq![' ', ' '] + spec_decimal(c as nat),
                None => self.label@,
            },
    {
        let mut chars = crate::strs::str_chars(self.label);
        match self.count {
            Some(c) => {
                let digits = decimal(c as u64);
                chars.push(' ');
                chars.push(' ');
                let mut k: usize = 0;
                let ghost base = chars@;
                while k < digits.len()
                    invariant
                        k <= digits.len(),
                        chars@ == base + digits@.take(k as int),
                    decreases digits.len() - k,
                {
                    chars.push(digits[k]);
                    assert(digits@.take(k as int).push(digits@[k as int]) == digits@.take(k + 1));
                    assert(base + digits@.take(k + 1) == (base + digits@.take(k as int)).push(digits@[k as int]));
                    k += 1;
                }
                assert(digits@.take(digits.len() as int) == digits@);
                assert(base == self.label@ + seq![' ', ' ']);
            },
            None => {},
        }
        crate::strs::string_of(&chars)
    }
}

/// A row of tabs bound to the active index.
pub struct Tabs<'a> {
    active: &'a mut usize,
    items: &'a [TabItem<'a>],
}

impl<'a> Tabs<'a> {
    pub fn new(active: &'a mut usize, items: &'a [TabItem<'a>]) -> (t: Tabs<'a>)
        ensures
            t.spec_active() == *old(active),
            t.spec_items() == items,
    {
        Tabs { active, items }
    }

    pub closed spec fn spec_active(&self) -> usize {
        *self.active
    }

    pub closed spec fn spec_items(&self) -> &'a [TabItem<'a>] {
        self.items
    }

    /// A click on tab `i`: an enabled tab other than the active one becomes
    /// active. Returns whether the active tab changed.
    pub fn click(&mut self, i: usize) -> (changed: bool)
        ensures
            final(self).spec_items() == old(self).spec_items(),
            changed == (i < old(self).spec_items()@.len() && !old(self).spec_items()@[i as int].disabled
                && i != old(self).spec_active()),
            final(self).spec_active() == if changed { i } else { old(self).spec_active() },
    {
        if i < self.items.len() && !self.items[i].disabled && i != *self.active {
            *self.active = i;
            true
        } else {
            false
        }
    }
}

} // verus!
