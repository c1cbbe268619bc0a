//! The open tabs: their order, the current one and the panes shown beside it.
use vstd::prelude::*;
use crate::code_tabs::CodeTab;
use crate::edits::lines_view;
use crate::colors::StyledText;
use crate::term_render::{ColorType, decimal, push_decimal};

verus! {

/// The open files.
#[derive(Debug)]
pub struct CodeTabs {
    pub tabFileNames: Vec<String>,
    pub tabs: Vec<CodeTab>,
    pub currentTab: usize,
    /// The tabs shown in the panes beside the current one.
    pub panes: Vec<usize>,
}

/// `v` with the items at `i` and `j` exchanged.
pub open spec fn swapped<T>(v: Seq<T>, i: int, j: int) -> Seq<T> {
    v.update(i, v[j]).update(j, v[i])
}

fn swap_items<T>(v: &mut Vec<T>, i: usize, j: usize)
    requires
        i < old(v)@.len(),
        j < old(v)@.len(),
    ensures
        final(v)@ == swapped(old(v)@, i as int, j as int),
{
    if i == j {
        proof {
            assert(swapped(old(v)@, i as int, j as int) =~= old(v)@);
        }
        return;
    }
    let (a, b) = if i < j {
        (i, j)
    } else {
        (j, i)
    };
    let ghost s = v@;
    let xb = v.remove(b);
    let xa = v.remove(a);
    v.insert(a, xb);
    v.insert(b, xa);
    proof {
        assert(v@ =~= swapped(s, a as int, b as int));
        assert(swapped(s, a as int, b as int) =~= swapped(s, i as int, j as int));
    }
}

impl CodeTabs {
    /// Closes the current tab, unless it is the only one, and makes the tab before it
    /// current (the first stays current).
    pub fn CloseTab(&mut self)
        requires
            old(self).tabs@.len() > 1 ==> old(self).currentTab < old(self).tabs@.len()
                && old(self).currentTab < old(self).tabFileNames@.len(),
        ensures
            if old(self).tabs@.len() > 1 {
                let c = old(self).currentTab as int;
                &&& final(self).tabs@ == old(self).tabs@.remove(c)
                &&& final(self).tabFileNames@ == old(self).tabFileNames@.remove(c)
                &&& final(self).currentTab == if c > 0 { (c - 1) as usize } else { 0 }
            } else {
                &&& final(self).tabs == old(self).tabs
                &&& final(self).tabFileNames == old(self).tabFileNames
                &&& final(self).currentTab == old(self).currentTab
            },
            final(self).panes == old(self).panes,
    {
        if self.tabs.len() > 1 {
            let _ = self.tabs.remove(self.currentTab);
            let _ = self.tabFileNames.remove(self.currentTab);
            self.currentTab = self.currentTab.saturating_sub(1);
        }
    }

    /// Moves the current tab one place right, keeping it current (not past the last name).
    pub fn MoveTabRight(&mut self)
        requires
            old(self).tabFileNames@.len() >= 1,
            old(self).currentTab < old(self).tabFileNames@.len() - 1 ==> old(self).currentTab + 1
                < old(self).tabs@.len(),
        ensures
            if old(self).currentTab < old(self).tabFileNames@.len() - 1 {
                let c = old(self).currentTab as int;
                &&& final(self).currentTab == c + 1
                &&& final(self).tabFileNames@ == swapped(old(self).tabFileNames@, c + 1, c)
                &&& final(self).tabs@ == swapped(old(self).tabs@, c + 1, c)
            } else {
                &&& final(self).currentTab == old(self).currentTab
                &&& final(self).tabFileNames == old(self).tabFileNames
                &&& final(self).tabs == old(self).tabs
            },
            final(self).panes == old(self).panes,
    {
        if self.currentTab < self.tabFileNames.len() - 1 {
            self.currentTab = self.currentTab + 1;
            swap_items(&mut self.tabFileNames, self.currentTab, self.currentTab - 1);
            swap_items(&mut self.tabs, self.currentTab, self.currentTab - 1);
        }
    }

    /// Moves the current tab one place left, keeping it current (not past the first).
    pub fn MoveTabLeft(&mut self)
        requires
            old(self).currentTab > 0 ==> old(self).currentTab < old(self).tabFileNames@.len()
                && old(self).currentTab < old(self).tabs@.len(),
        ensures
            if old(self).currentTab > 0 {
                let c = old(self).currentTab as int;
                &&& final(self).currentTab == c - 1
                &&& final(self).tabFileNames@ == swapped(old(self).tabFileNames@, c - 1, c)
                &&& final(self).tabs@ == swapped(old(self).tabs@, c - 1, c)
            } else {
                &&& final(self).currentTab == 0
                &&& final(self).tabFileNames == old(self).tabFileNames
                &&& final(self).tabs == old(self).tabs
            },
            final(self).panes == old(self).panes,
    {
        if self.currentTab > 0 {
            self.currentTab = self.currentTab - 1;
            swap_items(&mut self.tabFileNames, self.currentTab, self.currentTab + 1);
            swap_items(&mut self.tabs, self.currentTab, self.currentTab + 1);
        }
    }

    /// Makes the tab to the left current (the first stays current).
    pub fn TabLeft(&mut self)
        ensures
            final(self).currentTab == if old(self).currentTab > 0 {
                (old(self).currentTab - 1) as usize
            } else {
                0
            },
            final(self).tabs == old(self).tabs,
            final(self).tabFileNames == old(self).tabFileNames,
            final(self).panes == old(self).panes,
    {
        self.currentTab = self.currentTab.saturating_sub(1);
    }

    /// Makes the tab to the right current (the last stays current).
    pub fn TabRight(&mut self)
        requires
            old(self).tabFileNames@.len() >= 1,
        ensures
            ({
                let next = if old(self).currentTab < usize::MAX {
                    old(self).currentTab + 1
                } else {
                    usize::MAX as int
                };
                let last = old(self).tabFileNames@.len() - 1;
                final(self).currentTab == if next <= last { next } else { last }
            }),
            final(self).tabs == old(self).tabs,
            final(self).tabFileNames == old(self).tabFileNames,
            final(self).panes == old(self).panes,
    {
        let next = self.currentTab.saturating_add(1);
        let last = self.tabFileNames.len() - 1;
        self.currentTab = if next <= last {
            next
        } else {
            last
        };
    }

    /// The width of each pane when `width` columns, less `paddingLeft`, are shared between
    /// the current tab and the panes.
    pub fn GetTabSize(&self, width: usize, paddingLeft: usize) -> (size: usize)
        requires
            paddingLeft <= width,
            self.panes@.len() < usize::MAX,
        ensures
            size == (width - paddingLeft) / (self.panes@.len() + 1) as int,
    {
        let total = self.panes.len() + 1;
        (width - paddingLeft) / total
    }

    /// The tab shown at column `positionX`: the current tab in the first pane, else the tab
    /// of the pane there (columns past the last pane count as the last). Sets `lastTab` to
    /// the current tab or to the pane's number.
    pub fn GetTabNumber(&self, width: usize, paddingLeft: usize, positionX: usize, lastTab: &mut usize) -> (tab: usize)
        requires
            paddingLeft <= width,
            paddingLeft <= positionX,
            self.panes@.len() < usize::MAX,
            (width - paddingLeft) / (self.panes@.len() + 1) as int > 0,
        ensures
            ({
                let size = (width - paddingLeft) / (self.panes@.len() + 1) as int;
                let n = (positionX - paddingLeft) / size;
                let pane = if n <= self.panes@.len() { n } else { self.panes@.len() as int };
                if pane == 0 {
                    tab == self.currentTab && *final(lastTab) == self.currentTab
                } else {
                    tab == self.panes@[pane - 1] && *final(lastTab) == pane
                }
            }),
    {
        let total = self.panes.len() + 1;
        let size = (width - paddingLeft) / total;
        let n = (positionX - paddingLeft) / size;
        let pane = if n <= self.panes.len() {
            n
        } else {
            self.panes.len()
        };
        if pane == 0 {
            *lastTab = self.currentTab;
            self.currentTab
        } else {
            *lastTab = pane;
            self.panes[pane - 1]
        }
    }
}

/// A styled text as plain values: its characters and its styles.
pub open spec fn styled_view(s: StyledText) -> (Seq<char>, Seq<ColorType>) {
    (s.text@, s.styles@)
}

/// The styles added to every part of a tab's label: a dark gray background for the current
/// tab, and an underline while the tab bar has the focus.
pub open spec fn label_extra(current: bool, onTabs: bool) -> Seq<ColorType> {
    (if current {
        seq![ColorType::OnBrightBlack]
    } else {
        Seq::empty()
    }) + (if onTabs {
        seq![ColorType::Underline]
    } else {
        Seq::empty()
    })
}

/// The label of tab `i` named `name`: its number (counting from 1) in bold yellow, its name
/// in white italics, and a bold separator.
pub open spec fn tab_label(i: int, name: Seq<char>, current: bool, onTabs: bool) -> Seq<(Seq<char>, Seq<ColorType>)> {
    seq![
        (seq![' ', '('] + decimal((i + 1) as nat) + seq![')', ' '], seq![ColorType::BrightYellow, ColorType::Bold] + label_extra(current, onTabs)),
        (name, seq![ColorType::BrightWhite, ColorType::Italic] + label_extra(current, onTabs)),
        (seq![' ', '|'], seq![ColorType::BrightWhite, ColorType::Bold] + label_extra(current, onTabs)),
    ]
}

/// The labels of the tabs named `names`, in order, with tab `current` marked.
pub open spec fn tab_labels(names: Seq<Seq<char>>, current: int, onTabs: bool) -> Seq<(Seq<char>, Seq<ColorType>)>
    decreases names.len(),
{
    if names.len() == 0 {
        Seq::empty()
    } else {
        tab_labels(names.drop_last(), current, onTabs) + tab_label(
            names.len() - 1,
            names.last(),
            names.len() - 1 == current,
            onTabs,
        )
    }
}

fn styled(text: String, styles: Vec<ColorType>, current: bool, onTabs: bool) -> (s: StyledText)
    ensures
        styled_view(s) == (text@, styles@ + label_extra(current, onTabs)),
{
    let mut styles = styles;
    let ghost base = styles@;
    if current {
        styles.push(ColorType::OnBrightBlack);
    }
    if onTabs {
        styles.push(ColorType::Underline);
    }
    proof {
        assert(styles@ =~= base + label_extra(current, onTabs));
    }
    StyledText { text, styles }
}

impl CodeTabs {
    /// The tab bar: each tab's label in order (see `tab_label`), the current tab on a dark
    /// gray background, all underlined while the bar has the focus.
    pub fn GetColoredNames(&self, onTabs: bool) -> (colored: Vec<StyledText>)
        requires
            self.tabFileNames@.len() < u64::MAX,
        ensures
            colored@.map_values(|s: StyledText| styled_view(s)) == tab_labels(
                lines_view(self.tabFileNames@),
                self.currentTab as int,
                onTabs,
            ),
    {
        let mut colored: Vec<StyledText> = Vec::new();
        let ghost names = lines_view(self.tabFileNames@);
        let mut index: usize = 0;
        proof {
            assert(colored@.map_values(|s: StyledText| styled_view(s)) =~= tab_labels(
                names.subrange(0, 0),
                self.currentTab as int,
                onTabs,
            ));
        }
        while index < self.tabFileNames.len()
            invariant
                index <= self.tabFileNames@.len(),
                self.tabFileNames@.len() < u64::MAX,
                names == lines_view(self.tabFileNames@),
                names.len() == self.tabFileNames@.len(),
                colored@.map_values(|s: StyledText| styled_view(s)) == tab_labels(
                    names.subrange(0, index as int),
                    self.currentTab as int,
                    onTabs,
                ),
            decreases self.tabFileNames@.len() - index,
        {
            let current = index == self.currentTab;
            let mut number = String::new();
            crate::text::string_push(&mut number, ' ');
            crate::text::string_push(&mut number, '(');
            push_decimal(&mut number, (index + 1) as u64);
            crate::text::string_push(&mut number, ')');
            crate::text::string_push(&mut number, ' ');
            let mut bar = String::new();
            crate::text::string_push(&mut bar, ' ');
            crate::text::string_push(&mut bar, '|');
            let name = crate::text::string_of_str(self.tabFileNames[index].as_str());
            proof {
                assert(number@ =~= seq![' ', '('] + decimal((index + 1) as nat) + seq![')', ' ']);
                assert(bar@ =~= seq![' ', '|']);
            }
            let ghost before = colored@;
            colored.push(styled(number, vec![ColorType::BrightYellow, ColorType::Bold], current, onTabs));
            colored.push(styled(name, vec![ColorType::BrightWhite, ColorType::Italic], current, onTabs));
            colored.push(styled(bar, vec![ColorType::BrightWhite, ColorType::Bold], current, onTabs));
            proof {
                let prefix = names.subrange(0, index + 1);
                assert(prefix.drop_last() =~= names.subrange(0, index as int));
                assert(prefix.last() == names[index as int]);
                assert(names[index as int] == self.tabFileNames@[index as int]@);
                let mv = colored@.map_values(|s: StyledText| styled_view(s));
                let lab = tab_label(index as int, names[index as int], current, onTabs);
                assert(mv.len() == before.len() + 3);
                assert(mv[before.len() as int] == lab[0]);
                assert(mv[before.len() + 1int] == lab[1]);
                assert(mv[before.len() + 2int] == lab[2]);
                assert(colored@.map_values(|s: StyledText| styled_view(s)) =~= before.map_values(
                    |s: StyledText| styled_view(s),
                ) + tab_label(index as int, names[index as int], current, onTabs));
            }
            index = index + 1;
        }
        proof {
            assert(names.subrange(0, names.len() as int) =~= names);
        }
        colored
    }
}

} // verus!
