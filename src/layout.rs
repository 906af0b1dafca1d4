//! The width-bounded layout: tab strip, keybinding strip and mode trailer,
//! laid out as styled segments within a number of columns.
use vstd::prelude::*;

use crate::action::RecordView;
use crate::group::{GroupView, KeyGroup};
use crate::mode::{Mode, mode_label, mode_name};

verus! {

/// An open tab, in the order the host reports them.
#[derive(Clone, Debug, PartialEq, Eq)]
pub struct Tab {
    pub name: String,
    pub active: bool,
}

pub ghost struct TabView {
    pub name: Seq<char>,
    pub active: bool,
}

impl View for Tab {
    type V = TabView;

    open spec fn view(&self) -> TabView {
        TabView { name: self.name@, active: self.active }
    }
}

impl DeepView for Tab {
    type V = TabView;

    open spec fn deep_view(&self) -> TabView {
        self@
    }
}

impl Tab {
    /// A copy of the tab.
    pub fn copy(&self) -> (r: Tab)
        ensures
            r@ == self@,
    {
        Tab { name: self.name.clone(), active: self.active }
    }
}

/// One piece of the bar, as the output sink draws it.
#[derive(Clone, Debug, PartialEq, Eq)]
pub enum Segment {
    /// An escape sequence, written as it is; it takes no columns.
    Raw(String),
    /// A tab chip: the text with four columns of chrome, highlighted when selected.
    Ribbon { text: String, selected: bool },
    /// A key list, drawn selected, with the characters `start..end` in the
    /// accent color.
    Keys { text: String, start: usize, end: usize },
    /// Plain text, drawn selected.
    Label(String),
    /// The mode chip, drawn selected at `column` of the first row, with four
    /// columns of chrome.
    Trailer { text: String, column: usize },
}

pub ghost enum SegmentView {
    Raw(Seq<char>),
    Ribbon { text: Seq<char>, selected: bool },
    Keys { text: Seq<char>, start: nat, end: nat },
    Label(Seq<char>),
    Trailer { text: Seq<char>, column: nat },
}

impl View for Segment {
    type V = SegmentView;

    open spec fn view(&self) -> SegmentView {
        match self {
            Segment::Raw(s) => SegmentView::Raw(s@),
            Segment::Ribbon { text, selected } => SegmentView::Ribbon {
                text: text@,
                selected: *selected,
            },
            Segment::Keys { text, start, end } => SegmentView::Keys {
                text: text@,
                start: *start as nat,
                end: *end as nat,
            },
            Segment::Label(s) => SegmentView::Label(s@),
            Segment::Trailer { text, column } => SegmentView::Trailer {
                text: text@,
                column: *column as nat,
            },
        }
    }
}

impl DeepView for Segment {
    type V = SegmentView;

    open spec fn deep_view(&self) -> SegmentView {
        self@
    }
}

/// The columns a segment takes on screen, counted in characters.
pub open spec fn segment_width(s: SegmentView) -> int {
    match s {
        SegmentView::Raw(_) => 0,
        SegmentView::Ribbon { text, .. } => text.len() + 4int,
        SegmentView::Keys { text, .. } => text.len() as int,
        SegmentView::Label(text) => text.len() as int,
        SegmentView::Trailer { text, .. } => text.len() + 4int,
    }
}

/// The columns a sequence of segments takes.
pub open spec fn segments_width(s: Seq<SegmentView>) -> int
    decreases s.len(),
{
    if s.len() == 0 {
        0
    } else {
        segments_width(s.drop_last()) + segment_width(s.last())
    }
}

/// The sum of a sequence of costs.
pub open spec fn cost_sum(c: Seq<int>) -> int
    decreases c.len(),
{
    if c.len() == 0 {
        0
    } else {
        cost_sum(c.drop_last()) + c.last()
    }
}

/// How many leading items, of the given costs, fit one after another in
/// `budget` columns: the zone stops at the first item that would overflow.
pub open spec fn fit_count(c: Seq<int>, budget: int) -> nat
    decreases c.len(),
{
    if c.len() == 0 || c[0] > budget {
        0
    } else {
        1 + fit_count(c.drop_first(), budget - c[0])
    }
}

/// The position of the first active tab, or the number of tabs if none is.
pub open spec fn first_active(ts: Seq<TabView>) -> nat
    decreases ts.len(),
{
    if ts.len() == 0 {
        0
    } else if ts[0].active {
        0
    } else {
        1 + first_active(ts.drop_first())
    }
}

/// The tabs rotated so that the first active one leads: it and the tabs after
/// it, then the tabs before it, each part in the order given.
pub open spec fn rotated(ts: Seq<TabView>) -> Seq<TabView> {
    let a = first_active(ts) as int;
    ts.subrange(a, ts.len() as int) + ts.subrange(0, a)
}

/// The columns each tab chip takes: its name and four columns of chrome.
pub open spec fn tab_costs(ts: Seq<TabView>) -> Seq<int> {
    ts.map_values(|t: TabView| t.name.len() + 4int)
}

/// The chips of the given tabs.
pub open spec fn tab_segments(ts: Seq<TabView>) -> Seq<SegmentView> {
    ts.map_values(|t: TabView| SegmentView::Ribbon { text: t.name, selected: t.active })
}

/// The texts of a group's keys, one after the other.
pub open spec fn concat_keys(k: Seq<Seq<char>>) -> Seq<char>
    decreases k.len(),
{
    if k.len() == 0 {
        seq![]
    } else {
        concat_keys(k.drop_last()) + k.last()
    }
}

/// The key list of a group: its key texts one after the other, without the
/// separator that the last one carries when it has more than one character.
pub open spec fn key_string(k: Seq<Seq<char>>) -> Seq<char> {
    if k.len() > 0 && k.last().len() > 1 {
        concat_keys(k).drop_last()
    } else {
        concat_keys(k)
    }
}

/// What names a group: its icon where the terminal draws icon glyphs, else its
/// label.
pub open spec fn shown_label(r: RecordView, icons: bool) -> Seq<char> {
    if icons {
        r.icon
    } else {
        r.label
    }
}

/// The text of a group's key chip: ` <keys>`.
pub open spec fn keys_chip(g: GroupView) -> Seq<char> {
    " <"@ + key_string(g.keys) + ">"@
}

/// The columns each group takes: its key list, three columns of brackets and
/// space, and its label.
pub open spec fn group_costs(gs: Seq<GroupView>, icons: bool) -> Seq<int> {
    gs.map_values(
        |g: GroupView| key_string(g.keys).len() + 3int + shown_label(g.record, icons).len(),
    )
}

/// The segments of the given groups: for each, its key chip with the key list
/// in the accent color, then its label.
pub open spec fn group_segments(gs: Seq<GroupView>, icons: bool) -> Seq<SegmentView>
    decreases gs.len(),
{
    if gs.len() == 0 {
        seq![]
    } else {
        let g = gs.last();
        group_segments(gs.drop_last(), icons) + seq![
            SegmentView::Keys {
                text: keys_chip(g),
                start: 2,
                end: 2 + key_string(g.keys).len(),
            },
            SegmentView::Label(shown_label(g.record, icons)),
        ]
    }
}

/// The mode chip, right-aligned in `cols` columns, where it fits in what the
/// zones before it left over; else nothing.
pub open spec fn trailer_segments(m: Mode, cols: int, used: int) -> Seq<SegmentView> {
    let w = mode_label(m).len() + 4;
    if used + w <= cols {
        seq![SegmentView::Trailer { text: mode_label(m), column: (cols - w) as nat }]
    } else {
        seq![]
    }
}

proof fn lemma_fit_step(c: Seq<int>, b: int, i: int)
    requires
        0 <= i < c.len(),
    ensures
        c.subrange(i, c.len() as int).drop_first() == c.subrange(i + 1, c.len() as int),
        c.subrange(0, i + 1).drop_last() == c.subrange(0, i),
        c.subrange(i, c.len() as int)[0] == c[i],
{
    assert(c.subrange(i, c.len() as int).drop_first() =~= c.subrange(i + 1, c.len() as int));
    assert(c.subrange(0, i + 1).drop_last() =~= c.subrange(0, i));
}

/// Reorders the tabs so that the first active one leads, followed by the tabs
/// after it and then those before it; with no active tab the order is kept.
pub fn rotate_tabs(tabs: &Vec<Tab>) -> (r: Vec<Tab>)
    ensures
        r.deep_view() == rotated(tabs.deep_view()),
{
    let ghost ts = tabs.deep_view();
    let mut a: usize = 0;
    assert(ts.subrange(0, ts.len() as int) =~= ts);
    while a < tabs.len() && !tabs[a].active
        invariant
            a <= tabs.len(),
            ts == tabs.deep_view(),
            first_active(ts) == a + first_active(ts.subrange(a as int, ts.len() as int)),
        decreases tabs.len() - a,
    {
        proof {
            assert(ts.subrange(a as int, ts.len() as int).drop_first() =~= ts.subrange(
                a + 1,
                ts.len() as int,
            ));
        }
        a = a + 1;
    }
    assert(first_active(ts) == a);
    let mut r: Vec<Tab> = Vec::new();
    assert(r.deep_view() =~= ts.subrange(a as int, a as int));
    let mut i: usize = a;
    while i < tabs.len()
        invariant
            a <= i <= tabs.len(),
            ts == tabs.deep_view(),
            r.deep_view() == ts.subrange(a as int, i as int),
        decreases tabs.len() - i,
    {
        let ghost before = r.deep_view();
        let t = tabs[i].copy();
        r.push(t);
        assert(r.deep_view() =~= before.push(ts[i as int]));
        assert(r.deep_view() =~= ts.subrange(a as int, i + 1));
        i = i + 1;
    }
    let mut i: usize = 0;
    while i < a
        invariant
            i <= a <= tabs.len(),
            ts == tabs.deep_view(),
            r.deep_view() == ts.subrange(a as int, ts.len() as int) + ts.subrange(0, i as int),
        decreases a - i,
    {
        let ghost before = r.deep_view();
        let t = tabs[i].copy();
        r.push(t);
        assert(r.deep_view() =~= before.push(ts[i as int]));
        assert(r.deep_view() =~= ts.subrange(a as int, ts.len() as int) + ts.subrange(0, i + 1));
        i = i + 1;
    }
    r
}

/// Lays out the tab chips, in the given order, in `budget` columns: it stops
/// at the first tab that would overflow and never draws part of one. Returns
/// the columns used.
pub fn layout_tabs(tabs: &Vec<Tab>, budget: usize, out: &mut Vec<Segment>) -> (used: usize)
    ensures
        used <= budget,
        used == cost_sum(
            tab_costs(tabs.deep_view()).subrange(0, fit_count(tab_costs(tabs.deep_view()), budget as int) as int),
        ),
        fit_count(tab_costs(tabs.deep_view()), budget as int) <= tabs.len(),
        final(out).deep_view() == old(out).deep_view() + tab_segments(
            tabs.deep_view().subrange(0, fit_count(tab_costs(tabs.deep_view()), budget as int) as int),
        ),
{
    let ghost ts = tabs.deep_view();
    let ghost c = tab_costs(ts);
    let ghost out0 = out.deep_view();
    let mut used: usize = 0;
    let mut i: usize = 0;
    assert(c.subrange(0, 0) =~= Seq::<int>::empty());
    assert(c.subrange(0, c.len() as int) =~= c);
    assert(out.deep_view() =~= out0 + tab_segments(ts.subrange(0, 0)));
    while i < tabs.len()
        invariant
            i <= tabs.len(),
            ts == tabs.deep_view(),
            c == tab_costs(ts),
            used <= budget,
            used == cost_sum(c.subrange(0, i as int)),
            fit_count(c, budget as int) == i + fit_count(
                c.subrange(i as int, c.len() as int),
                budget - used,
            ),
            out.deep_view() == out0 + tab_segments(ts.subrange(0, i as int)),
        ensures
            i <= tabs.len(),
            used <= budget,
            used == cost_sum(c.subrange(0, i as int)),
            i == fit_count(c, budget as int),
            out.deep_view() == out0 + tab_segments(ts.subrange(0, i as int)),
        decreases tabs.len() - i,
    {
        let n = tabs[i].name.as_str().unicode_len();
        let room = budget - used;
        proof {
            lemma_fit_step(c, budget - used, i as int);
        }
        if !(n <= room && 4 <= room - n) {
            break;
        }
        let ghost before = out.deep_view();
        out.push(Segment::Ribbon { text: tabs[i].name.clone(), selected: tabs[i].active });
        assert(out.deep_view() =~= before.push(
            SegmentView::Ribbon { text: ts[i as int].name, selected: ts[i as int].active },
        ));
        assert(tab_segments(ts.subrange(0, i + 1)) =~= tab_segments(ts.subrange(0, i as int)).push(
            SegmentView::Ribbon { text: ts[i as int].name, selected: ts[i as int].active },
        ));
        used = used + n + 4;
        i = i + 1;
    }
    used
}

/// The key list of a group: its key texts joined, the separator of the last
/// one dropped.
pub fn key_text(keys: &Vec<String>) -> (r: String)
    ensures
        r@ == key_string(keys.deep_view()),
{
    let ghost k = keys.deep_view();
    let mut s = String::new();
    let mut i: usize = 0;
    assert(k.subrange(0, 0) =~= Seq::<Seq<char>>::empty());
    while i < keys.len()
        invariant
            i <= keys.len(),
            k == keys.deep_view(),
            s@ == concat_keys(k.subrange(0, i as int)),
        decreases keys.len() - i,
    {
        s.append(keys[i].as_str());
        assert(k.subrange(0, i + 1).drop_last() =~= k.subrange(0, i as int));
        i = i + 1;
    }
    assert(k.subrange(0, k.len() as int) =~= k);
    if keys.len() > 0 && keys[keys.len() - 1].as_str().unicode_len() > 1 {
        assert(k.drop_last() + seq![k.last()] =~= k);
        let n = s.as_str().unicode_len();
        let r = String::from_str(s.as_str().substring_char(0, n - 1));
        assert(r@ =~= s@.drop_last());
        r
    } else {
        s
    }
}

/// What names a group on screen: its icon or its label.
pub fn label_text(r: &crate::action::ActionRecord, icons: bool) -> (s: String)
    ensures
        s@ == shown_label(r@, icons),
{
    if icons {
        r.icon.clone()
    } else {
        r.label.clone()
    }
}

/// Lays out the groups, in the given order, in `budget` columns: it stops at
/// the first group that would overflow, so the groups of highest rank are the
/// first to go. Returns the columns used.
pub fn layout_groups(groups: &Vec<KeyGroup>, icons: bool, budget: usize, out: &mut Vec<Segment>) -> (used: usize)
    ensures
        used <= budget,
        used == cost_sum(
            group_costs(groups.deep_view(), icons).subrange(
                0,
                fit_count(group_costs(groups.deep_view(), icons), budget as int) as int,
            ),
        ),
        fit_count(group_costs(groups.deep_view(), icons), budget as int) <= groups.len(),
        final(out).deep_view() == old(out).deep_view() + group_segments(
            groups.deep_view().subrange(
                0,
                fit_count(group_costs(groups.deep_view(), icons), budget as int) as int,
            ),
            icons,
        ),
{
    let ghost gs = groups.deep_view();
    let ghost c = group_costs(gs, icons);
    let ghost out0 = out.deep_view();
    let mut used: usize = 0;
    let mut i: usize = 0;
    assert(c.subrange(0, 0) =~= Seq::<int>::empty());
    assert(c.subrange(0, c.len() as int) =~= c);
    assert(gs.subrange(0, 0) =~= Seq::<GroupView>::empty());
    assert(out.deep_view() =~= out0 + group_segments(gs.subrange(0, 0), icons));
    while i < groups.len()
        invariant
            i <= groups.len(),
            gs == groups.deep_view(),
            c == group_costs(gs, icons),
            used <= budget,
            used == cost_sum(c.subrange(0, i as int)),
            fit_count(c, budget as int) == i + fit_count(
                c.subrange(i as int, c.len() as int),
                budget - used,
            ),
            out.deep_view() == out0 + group_segments(gs.subrange(0, i as int), icons),
        ensures
            i <= groups.len(),
            used <= budget,
            used == cost_sum(c.subrange(0, i as int)),
            i == fit_count(c, budget as int),
            out.deep_view() == out0 + group_segments(gs.subrange(0, i as int), icons),
        decreases groups.len() - i,
    {
        let keys = key_text(&groups[i].keys);
        let label = label_text(&groups[i].record, icons);
        let kn = keys.as_str().unicode_len();
        let ln = label.as_str().unicode_len();
        let room = budget - used;
        proof {
            lemma_fit_step(c, budget - used, i as int);
        }
        if !(kn <= room && ln <= room - kn && 3 <= room - kn - ln) {
            break;
        }
        let ghost g = gs[i as int];
        let mut chip = String::from_str(" <");
        chip.append(keys.as_str());
        chip.append(">");
        let ghost before = out.deep_view();
        out.push(Segment::Keys { text: chip, start: 2, end: kn + 2 });
        out.push(Segment::Label(label));
        let ghost added = seq![
            SegmentView::Keys { text: keys_chip(g), start: 2, end: 2 + key_string(g.keys).len() },
            SegmentView::Label(shown_label(g.record, icons)),
        ];
        assert(out.deep_view() =~= before + added);
        assert(gs.subrange(0, i + 1).drop_last() =~= gs.subrange(0, i as int));
        assert(group_segments(gs.subrange(0, i + 1), icons) == group_segments(
            gs.subrange(0, i as int),
            icons,
        ) + added);
        assert(out0 + group_segments(gs.subrange(0, i + 1), icons) =~= before + added);
        used = used + kn + ln + 3;
        i = i + 1;
    }
    used
}

/// Adds the mode chip, right-aligned in `cols` columns, where it fits after the
/// `used` columns of the zones before it; where nothing is left, it adds nothing.
pub fn layout_trailer(m: Mode, cols: usize, used: usize, out: &mut Vec<Segment>)
    ensures
        final(out).deep_view() == old(out).deep_view() + trailer_segments(m, cols as int, used as int),
{
    let text = mode_name(m);
    let n = text.as_str().unicode_len();
    let ghost before = out.deep_view();
    if used <= cols && n <= cols - used && 4 <= cols - used - n {
        let column = cols - n - 4;
        out.push(Segment::Trailer { text, column });
        assert(out.deep_view() =~= before + trailer_segments(m, cols as int, used as int));
    } else {
        assert(out.deep_view() =~= before + trailer_segments(m, cols as int, used as int));
    }
}

/// After rotation the first active tab leads, the tabs after it follow in
/// their order, and the tabs before it come last, in their order; nothing is
/// lost or added.
pub proof fn lemma_rotation_leads_with_active(ts: Seq<TabView>)
    ensures
        rotated(ts).len() == ts.len(),
        first_active(ts) <= ts.len(),
        forall|k: int| 0 <= k < first_active(ts) ==> !(#[trigger] ts[k]).active,
        first_active(ts) < ts.len() ==> ts[first_active(ts) as int].active && rotated(ts)[0]
            == ts[first_active(ts) as int],
        forall|k: int|
            0 <= k < ts.len() ==> #[trigger] rotated(ts)[k] == ts[(k + first_active(ts)) % (
            ts.len() as int)],
    decreases ts.len(),
{
    if ts.len() > 0 && !ts[0].active {
        lemma_rotation_leads_with_active(ts.drop_first());
        assert forall|k: int| 0 <= k < first_active(ts) implies !(#[trigger] ts[k]).active by {
            if k > 0 {
                assert(ts[k] == ts.drop_first()[k - 1]);
            }
        }
    }
    let a = first_active(ts) as int;
    let n = ts.len() as int;
    assert forall|k: int| 0 <= k < n implies #[trigger] rotated(ts)[k] == ts[(k + a) % n] by {
        if k < n - a {
            assert((k + a) % n == k + a) by (nonlinear_arith)
                requires 0 <= k + a < n;
        } else {
            assert((k + a) % n == k + a - n) by (nonlinear_arith)
                requires n <= k + a < 2 * n;
        }
    }
}

/// With fewer columns no more items fit.
pub proof fn lemma_fit_count_monotonic(c: Seq<int>, b1: int, b2: int)
    requires
        b1 <= b2,
    ensures
        fit_count(c, b1) <= fit_count(c, b2),
    decreases c.len(),
{
    if c.len() > 0 && c[0] <= b1 {
        lemma_fit_count_monotonic(c.drop_first(), b1 - c[0], b2 - c[0]);
    }
}

proof fn lemma_cost_sum_prepend(x: int, c: Seq<int>)
    ensures
        cost_sum(seq![x] + c) == x + cost_sum(c),
    decreases c.len(),
{
    if c.len() > 0 {
        assert((seq![x] + c).drop_last() =~= seq![x] + c.drop_last());
        assert((seq![x] + c).last() == c.last());
        lemma_cost_sum_prepend(x, c.drop_last());
    } else {
        assert(seq![x] + c =~= seq![x]);
        assert(seq![x].drop_last() =~= Seq::<int>::empty());
        assert(cost_sum(Seq::<int>::empty()) == 0);
    }
}

/// The items that fit take no more than the budget.
pub proof fn lemma_fit_within(c: Seq<int>, b: int)
    requires
        b >= 0,
    ensures
        fit_count(c, b) <= c.len(),
        cost_sum(c.subrange(0, fit_count(c, b) as int)) <= b,
    decreases c.len(),
{
    let n = fit_count(c, b) as int;
    if n == 0 {
        assert(c.subrange(0, 0) =~= Seq::<int>::empty());
    } else {
        let rest = c.drop_first();
        lemma_fit_within(rest, b - c[0]);
        assert(c.subrange(0, n) =~= seq![c[0]] + rest.subrange(0, n - 1));
        lemma_cost_sum_prepend(c[0], rest.subrange(0, n - 1));
    }
}

} // verus!
