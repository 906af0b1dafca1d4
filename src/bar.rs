//! The bar's retained state: what the host last reported, whether a report
//! changes it, and the segments one render pass draws.
use vstd::prelude::*;

use crate::action::Action;
use crate::group::{BindingView, GroupView, KeyBinding, aggregate, grouping_of};
use crate::layout::{
    Segment, SegmentView, Tab, TabView, cost_sum, fit_count, group_costs, group_segments,
    keys_chip, key_string, layout_groups, layout_tabs, layout_trailer, rotate_tabs, rotated,
    segment_width, segments_width, shown_label, tab_costs, tab_segments, trailer_segments,
};
use crate::mode::{Mode, mode_shows_tabs, shows_tabs};
use crate::style::{Color, fill_sequence, fill_text};

verus! {

/// The colors the bar reads from the host's theme.
#[derive(Clone, Copy, Debug, PartialEq, Eq, Structural)]
pub struct Palette {
    pub background: Color,
}

/// What the host reports on a mode change: the mode, its keybindings, the
/// palette, and whether the terminal draws icon glyphs.
#[derive(Clone, Debug, PartialEq, Eq)]
pub struct ModeInfo {
    pub mode: Mode,
    pub keybinds: Vec<KeyBinding>,
    pub palette: Palette,
    pub arrow_fonts: bool,
}

pub ghost struct ModeView {
    pub mode: Mode,
    pub keybinds: Seq<BindingView>,
    pub palette: Palette,
    pub arrow_fonts: bool,
}

impl View for ModeInfo {
    type V = ModeView;

    open spec fn view(&self) -> ModeView {
        ModeView {
            mode: self.mode,
            keybinds: self.keybinds.deep_view(),
            palette: self.palette,
            arrow_fonts: self.arrow_fonts,
        }
    }
}

/// The mode report assumed before the host's first one: the default mode, no
/// keybindings, background color 0, text labels.
pub open spec fn initial_mode() -> ModeView {
    ModeView {
        mode: Mode::Normal,
        keybinds: seq![],
        palette: Palette { background: Color::Indexed(0) },
        arrow_fonts: false,
    }
}

impl ModeInfo {
    /// The mode report assumed before the host's first one.
    pub fn new() -> (r: ModeInfo)
        ensures
            r@ == initial_mode(),
    {
        let keybinds: Vec<KeyBinding> = Vec::new();
        assert(keybinds.deep_view() =~= Seq::<BindingView>::empty());
        ModeInfo {
            mode: Mode::Normal,
            keybinds,
            palette: Palette { background: Color::Indexed(0) },
            arrow_fonts: false,
        }
    }
}

/// A notification from the host.
#[derive(Clone, Debug, PartialEq, Eq)]
pub enum Event {
    ModeUpdate(ModeInfo),
    TabUpdate(Vec<Tab>),
    Other,
}

/// The last snapshot the host reported.
#[derive(Clone, Debug, PartialEq, Eq)]
pub struct StatusBar {
    pub tabs: Vec<Tab>,
    pub mode_info: ModeInfo,
}

pub ghost struct BarView {
    pub tabs: Seq<TabView>,
    pub mode_info: ModeView,
}

impl View for StatusBar {
    type V = BarView;

    open spec fn view(&self) -> BarView {
        BarView { tabs: self.tabs.deep_view(), mode_info: self.mode_info@ }
    }
}

/// The groups of the current mode's keybindings.
pub open spec fn bar_groups(s: BarView) -> Seq<GroupView> {
    grouping_of(s.mode_info.keybinds)
}

/// How many tabs a render in `cols` columns shows.
pub open spec fn tabs_shown(s: BarView, cols: nat) -> nat {
    if shows_tabs(s.mode_info.mode) {
        fit_count(tab_costs(rotated(s.tabs)), cols as int)
    } else {
        0
    }
}

/// The columns the tab strip takes.
pub open spec fn tabs_used(s: BarView, cols: nat) -> int {
    cost_sum(tab_costs(rotated(s.tabs)).subrange(0, tabs_shown(s, cols) as int))
}

/// How many keybinding groups a render in `cols` columns shows: as many as fit
/// after the tab strip.
pub open spec fn groups_shown(s: BarView, cols: nat) -> nat {
    fit_count(group_costs(bar_groups(s), s.mode_info.arrow_fonts), cols - tabs_used(s, cols))
}

/// The columns the keybinding strip takes.
pub open spec fn groups_used(s: BarView, cols: nat) -> int {
    cost_sum(
        group_costs(bar_groups(s), s.mode_info.arrow_fonts).subrange(0, groups_shown(s, cols) as int),
    )
}

/// What a render in `cols` columns draws: nothing at zero columns; else the
/// row's background fill, the tab chips (only in the default and the tab
/// modes), the keybinding groups, and the mode chip where it still fits.
pub open spec fn render_view(s: BarView, cols: nat) -> Seq<SegmentView> {
    if cols == 0 {
        seq![]
    } else {
        seq![SegmentView::Raw(fill_text(s.mode_info.palette.background))] + tab_segments(
            rotated(s.tabs).subrange(0, tabs_shown(s, cols) as int),
        ) + group_segments(
            bar_groups(s).subrange(0, groups_shown(s, cols) as int),
            s.mode_info.arrow_fonts,
        ) + trailer_segments(s.mode_info.mode, cols as int, tabs_used(s, cols) + groups_used(s, cols))
    }
}

proof fn lemma_width_append(a: Seq<SegmentView>, b: Seq<SegmentView>)
    ensures
        segments_width(a + b) == segments_width(a) + segments_width(b),
    decreases b.len(),
{
    if b.len() > 0 {
        assert((a + b).drop_last() =~= a + b.drop_last());
        lemma_width_append(a, b.drop_last());
    } else {
        assert(a + b =~= a);
    }
}

proof fn lemma_width_single(x: SegmentView)
    ensures
        segments_width(seq![x]) == segment_width(x),
{
    assert(seq![x].drop_last() =~= Seq::<SegmentView>::empty());
    assert(segments_width(Seq::<SegmentView>::empty()) == 0);
}

proof fn lemma_tab_width(ts: Seq<TabView>)
    ensures
        segments_width(tab_segments(ts)) == cost_sum(tab_costs(ts)),
    decreases ts.len(),
{
    if ts.len() > 0 {
        assert(tab_segments(ts).drop_last() =~= tab_segments(ts.drop_last()));
        assert(tab_costs(ts).drop_last() =~= tab_costs(ts.drop_last()));
        lemma_tab_width(ts.drop_last());
    }
}

proof fn lemma_group_width(gs: Seq<GroupView>, icons: bool)
    ensures
        segments_width(group_segments(gs, icons)) == cost_sum(group_costs(gs, icons)),
    decreases gs.len(),
{
    if gs.len() > 0 {
        let g = gs.last();
        let rest = group_segments(gs.drop_last(), icons);
        let added = seq![
            SegmentView::Keys { text: keys_chip(g), start: 2, end: 2 + key_string(g.keys).len() },
            SegmentView::Label(shown_label(g.record, icons)),
        ];
        lemma_group_width(gs.drop_last(), icons);
        lemma_width_append(rest, added);
        assert(added.drop_last() =~= seq![added[0]]);
        lemma_width_single(added[0]);
        reveal_strlit(" <");
        reveal_strlit(">");
        assert(segment_width(added[0]) == key_string(g.keys).len() + 3);
        assert(segments_width(seq![added[0]]) == segment_width(added[0]));
        assert(segments_width(added) == segment_width(added[0]) + segment_width(added[1]));
        assert(group_costs(gs, icons).drop_last() =~= group_costs(gs.drop_last(), icons));
    }
}

/// Whether two lists of tabs are the same.
fn same_tabs(a: &Vec<Tab>, b: &Vec<Tab>) -> (r: bool)
    ensures
        r == (a.deep_view() == b.deep_view()),
{
    if a.len() != b.len() {
        assert(a.deep_view().len() != b.deep_view().len());
        return false;
    }
    let mut i: usize = 0;
    while i < a.len()
        invariant
            i <= a.len() == b.len(),
            forall|k: int| 0 <= k < i ==> a.deep_view()[k] == b.deep_view()[k],
        decreases a.len() - i,
    {
        if a[i].active != b[i].active || a[i].name != b[i].name {
            assert(a.deep_view()[i as int] != b.deep_view()[i as int]);
            return false;
        }
        i = i + 1;
    }
    assert(a.deep_view() =~= b.deep_view());
    true
}

/// Whether two lists of actions are the same.
fn same_actions(a: &Vec<Action>, b: &Vec<Action>) -> (r: bool)
    ensures
        r == (a@ == b@),
{
    if a.len() != b.len() {
        assert(a@.len() != b@.len());
        return false;
    }
    let mut i: usize = 0;
    while i < a.len()
        invariant
            i <= a.len() == b.len(),
            forall|k: int| 0 <= k < i ==> a@[k] == b@[k],
        decreases a.len() - i,
    {
        if a[i] != b[i] {
            return false;
        }
        i = i + 1;
    }
    assert(a@ =~= b@);
    true
}

/// Whether two keybinding tables are the same.
fn same_keybinds(a: &Vec<KeyBinding>, b: &Vec<KeyBinding>) -> (r: bool)
    ensures
        r == (a.deep_view() == b.deep_view()),
{
    if a.len() != b.len() {
        assert(a.deep_view().len() != b.deep_view().len());
        return false;
    }
    let mut i: usize = 0;
    while i < a.len()
        invariant
            i <= a.len() == b.len(),
            forall|k: int| 0 <= k < i ==> a.deep_view()[k] == b.deep_view()[k],
        decreases a.len() - i,
    {
        if a[i].chord != b[i].chord || !same_actions(&a[i].actions, &b[i].actions) {
            assert(a.deep_view()[i as int] != b.deep_view()[i as int]);
            return false;
        }
        i = i + 1;
    }
    assert(a.deep_view() =~= b.deep_view());
    true
}

/// Whether two mode reports are the same.
fn same_mode_info(a: &ModeInfo, b: &ModeInfo) -> (r: bool)
    ensures
        r == (a@ == b@),
{
    a.mode == b.mode && a.palette == b.palette && a.arrow_fonts == b.arrow_fonts
        && same_keybinds(&a.keybinds, &b.keybinds)
}

impl StatusBar {
    /// The bar before the host's first report: no tabs, the default mode.
    pub fn new() -> (r: StatusBar)
        ensures
            r@.tabs == Seq::<TabView>::empty(),
            r@.mode_info == initial_mode(),
    {
        let tabs: Vec<Tab> = Vec::new();
        assert(tabs.deep_view() =~= Seq::<TabView>::empty());
        StatusBar { tabs, mode_info: ModeInfo::new() }
    }

    /// Takes in a notification from the host; a report replaces the part of the
    /// snapshot it is about. Returns whether the snapshot changed, that is,
    /// whether the bar must be drawn again.
    pub fn update(&mut self, event: Event) -> (changed: bool)
        ensures
            match event {
                Event::ModeUpdate(m) => {
                    &&& final(self)@.mode_info == m@
                    &&& final(self)@.tabs == old(self)@.tabs
                    &&& changed == (old(self)@.mode_info != m@)
                },
                Event::TabUpdate(t) => {
                    &&& final(self)@.tabs == t.deep_view()
                    &&& final(self)@.mode_info == old(self)@.mode_info
                    &&& changed == (old(self)@.tabs != t.deep_view())
                },
                Event::Other => final(self)@ == old(self)@ && !changed,
            },
    {
        match event {
            Event::ModeUpdate(m) => {
                let changed = !same_mode_info(&self.mode_info, &m);
                self.mode_info = m;
                changed
            },
            Event::TabUpdate(t) => {
                let changed = !same_tabs(&self.tabs, &t);
                self.tabs = t;
                changed
            },
            Event::Other => false,
        }
    }

    /// Draws the bar in `cols` columns. The segments never take more than
    /// `cols` columns; at zero columns nothing is drawn.
    pub fn render(&self, cols: usize) -> (r: Vec<Segment>)
        ensures
            r.deep_view() == render_view(self@, cols as nat),
            segments_width(r.deep_view()) <= cols,
    {
        let ghost s = self@;
        let mut out: Vec<Segment> = Vec::new();
        if cols == 0 {
            assert(out.deep_view() =~= Seq::<SegmentView>::empty());
            return out;
        }
        out.push(Segment::Raw(fill_sequence(self.mode_info.palette.background)));
        let ghost zone0 = out.deep_view();
        assert(zone0 =~= seq![SegmentView::Raw(fill_text(s.mode_info.palette.background))]);
        let tabs = rotate_tabs(&self.tabs);
        let mut used: usize = 0;
        if mode_shows_tabs(self.mode_info.mode) {
            used = layout_tabs(&tabs, cols, &mut out);
        } else {
            assert(rotated(s.tabs).subrange(0, 0) =~= Seq::<TabView>::empty());
            assert(tab_segments(Seq::<TabView>::empty()) =~= Seq::<SegmentView>::empty());
            assert(out.deep_view() =~= zone0 + tab_segments(rotated(s.tabs).subrange(0, 0)));
            assert(tab_costs(rotated(s.tabs)).subrange(0, 0) =~= Seq::<int>::empty());
        }
        let ghost zone1 = out.deep_view();
        let groups = aggregate(&self.mode_info.keybinds);
        let more = layout_groups(&groups, self.mode_info.arrow_fonts, cols - used, &mut out);
        let ghost zone2 = out.deep_view();
        layout_trailer(self.mode_info.mode, cols, used + more, &mut out);
        proof {
            let ts = tab_segments(rotated(s.tabs).subrange(0, tabs_shown(s, cols as nat) as int));
            let gsg = group_segments(
                bar_groups(s).subrange(0, groups_shown(s, cols as nat) as int),
                s.mode_info.arrow_fonts,
            );
            let tr = trailer_segments(s.mode_info.mode, cols as int, used + more);
            assert(out.deep_view() =~= zone0 + ts + gsg + tr);
            lemma_render_fits(s, cols as nat);
        }
        out
    }
}

/// Shrinking the column budget never shows more tabs; nor more keybinding
/// groups, as long as it shows as many tabs. (Where the narrower budget drops
/// a tab, the columns it frees can let more groups in.)
pub proof fn lemma_fewer_columns(s: BarView, c1: nat, c2: nat)
    requires
        c1 <= c2,
    ensures
        tabs_shown(s, c1) <= tabs_shown(s, c2),
        tabs_shown(s, c1) == tabs_shown(s, c2) ==> groups_shown(s, c1) <= groups_shown(s, c2),
{
    crate::layout::lemma_fit_count_monotonic(tab_costs(rotated(s.tabs)), c1 as int, c2 as int);
    if tabs_shown(s, c1) == tabs_shown(s, c2) {
        assert(tabs_used(s, c1) == tabs_used(s, c2));
        crate::layout::lemma_fit_count_monotonic(
            group_costs(bar_groups(s), s.mode_info.arrow_fonts),
            c1 - tabs_used(s, c1),
            c2 - tabs_used(s, c2),
        );
    }
}

/// A render never takes more columns than it is given, whatever the tabs, the
/// keybindings and the mode; at zero columns it draws nothing.
pub proof fn lemma_render_fits(s: BarView, cols: nat)
    ensures
        segments_width(render_view(s, cols)) <= cols,
        cols == 0 ==> render_view(s, cols) == Seq::<SegmentView>::empty(),
{
    if cols > 0 {
        let icons = s.mode_info.arrow_fonts;
        let zone0 = seq![SegmentView::Raw(fill_text(s.mode_info.palette.background))];
        let shown_tabs = rotated(s.tabs).subrange(0, tabs_shown(s, cols) as int);
        let shown_groups = bar_groups(s).subrange(0, groups_shown(s, cols) as int);
        let ts = tab_segments(shown_tabs);
        let gsg = group_segments(shown_groups, icons);
        let tr = trailer_segments(s.mode_info.mode, cols as int, tabs_used(s, cols) + groups_used(s, cols));
        if shows_tabs(s.mode_info.mode) {
            crate::layout::lemma_fit_within(tab_costs(rotated(s.tabs)), cols as int);
        } else {
            assert(tab_costs(rotated(s.tabs)).subrange(0, 0) =~= Seq::<int>::empty());
        }
        crate::layout::lemma_fit_within(
            group_costs(bar_groups(s), icons),
            cols - tabs_used(s, cols),
        );
        lemma_width_append(zone0 + ts + gsg, tr);
        lemma_width_append(zone0 + ts, gsg);
        lemma_width_append(zone0, ts);
        lemma_width_single(zone0[0]);
        lemma_tab_width(shown_tabs);
        lemma_group_width(shown_groups, icons);
        assert(tab_costs(shown_tabs) =~= tab_costs(rotated(s.tabs)).subrange(
            0,
            tabs_shown(s, cols) as int,
        ));
        assert(group_costs(shown_groups, icons) =~= group_costs(bar_groups(s), icons).subrange(
            0,
            groups_shown(s, cols) as int,
        ));
        if tr.len() > 0 {
            lemma_width_single(tr[0]);
            assert(tr =~= seq![tr[0]]);
        } else {
            assert(segments_width(tr) == 0);
        }
    }
}

} // verus!
