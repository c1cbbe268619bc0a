//! Where the editor's windows go on the screen and what the menu's windows show: the
//! command line, the welcome text, the settings boxes, and the project's panels.
use vstd::prelude::*;
use crate::text::{string_of_str, contains_seq, concat, substring, char_len};
use crate::term_render::{
    ColorType, ColorMode, Colored, ColoredView, ColorMeaning, Span, Window, with_colors, with_meaning, color_meaning,
    span_size,
};
use crate::term_app::{App, contains_string, shares_word, select, strs, lemma_select_agree, lemma_select_bounds};
use crate::code_tabs::CodeTab;
use crate::completion::{completion_ready, completed, last_tab, cursor_tokens, completion_of, lemma_suggestion_from, names_of};
use crate::token_info::scoped_keywords;
use crate::main_app::{MainApp, MenuState, AppState};
use crate::colors::{ColorTypes, StyledText};
use crate::tabs::{tab_labels, styled_view};
use crate::edits::lines_view;
use crate::main_app::TabState;
use crate::event_handler::KeyModifiers;

verus! {

// ---------------------------------------------------------------- styled text
/// Uncolored `text` with the colors added in order.
pub open spec fn styled(text: Seq<char>, colors: Seq<ColorType>, mode: ColorMode) -> ColoredView {
    with_colors((text, Seq::empty(), None, None), colors, mode)
}

fn styled_str(text: &str, colors: Vec<ColorType>, mode: ColorMode) -> (c: Colored)
    ensures
        c@ == styled(text@, colors@, mode),
{
    Colored::GetFromColorTypesStr(text, colors, mode)
}

/// The colored text already carries the color of meaning `m`.
pub open spec fn has_meaning(c: ColoredView, m: ColorMeaning) -> bool {
    let (mc, mm, is_bg) = m;
    mc == c.3 && is_bg || (c.2 is Some && mc is Some && contains_seq(c.2.unwrap(), mc.unwrap()))
        || exists|i: int| 0 <= i < mm.len() && c.1.contains(#[trigger] mm[i])
}

/// A border color with `t` added unless it already has it.
pub open spec fn tried_color(c: ColoredView, t: ColorType, mode: ColorMode) -> ColoredView {
    if has_meaning(c, color_meaning(t, mode)) {
        c
    } else {
        with_meaning(c, color_meaning(t, mode))
    }
}

/// A border color without colors (as it is when it has none).
pub open spec fn cleared_color(c: ColoredView) -> ColoredView {
    if c.1.len() == 0 && c.2 is None && c.3 is None {
        c
    } else {
        (Seq::empty(), Seq::empty(), None, None)
    }
}

/// The window shows exactly the lines `spans`.
pub open spec fn shows(w: Window, spans: Seq<Seq<ColoredView>>) -> bool {
    &&& w.lines@.len() == spans.len()
    &&& forall|i: int| 0 <= i < spans.len() ==> (#[trigger] w.lines@[i]).0@ == spans[i]
}

/// The views of spans.
pub open spec fn spans_view(v: Seq<Span>) -> Seq<Seq<ColoredView>> {
    v.map_values(|s: Span| s@)
}

/// The window is `before` with other lines: its place, size, looks and flags are kept.
pub open spec fn same_frame(before: Window, after: Window) -> bool {
    &&& after.position == before.position
    &&& after.size == before.size
    &&& after.depth == before.depth
    &&& after.bordered == before.bordered
    &&& after.title == before.title
    &&& after.hidden == before.hidden
    &&& after.updated@.len() == before.updated@.len()
}

/// Shows `lines` in the window, which has rows for them.
fn show_lines(w: &mut Window, lines: Vec<Span>)
    requires
        old(w).wf(),
        lines@.len() + old(w).border_rows() <= old(w).updated@.len(),
        forall|i: int| 0 <= i < lines@.len() ==> span_size(#[trigger] lines@[i]@) <= usize::MAX,
    ensures
        final(w).wf(),
        shows(*final(w), spans_view(lines@)),
        same_frame(*old(w), *final(w)),
        final(w).color == old(w).color,
{
    let ghost all = lines@;
    w.TryUpdateLines(lines);
}

/// Adds `t` to the window's border unless it has it, or clears the border's colors.
fn mark_box(w: &mut Window, on: bool, t: ColorType, mode: ColorMode)
    requires
        old(w).wf(),
    ensures
        final(w).wf(),
        final(w).color@ == if on {
            tried_color(old(w).color@, t, mode)
        } else {
            cleared_color(old(w).color@)
        },
        same_frame(*old(w), *final(w)),
        final(w).lines == old(w).lines,
{
    if on {
        w.TryColorize(t, mode);
    } else {
        w.ClearColors();
    }
}

// ---------------------------------------------------------------- placing windows
/// A new window at `position` of `size`, empty and to be drawn in full.
pub open spec fn fresh(w: Window, position: (u16, u16), size: (u16, u16), bordered: bool) -> bool {
    &&& w.wf()
    &&& w.position == position
    &&& w.size == size
    &&& w.depth == 0
    &&& w.bordered == bordered
    &&& w.lines@.len() == 0
    &&& w.title.1 == 0
    &&& !w.hidden
    &&& w.all_stale()
    &&& w.updated@.len() == size.1
}

/// The screen after placing the window `name` at `position` with `size`: an existing
/// window is moved and resized in place, else a new one is added with `keywords`.
pub open spec fn placed(
    before: App,
    after: App,
    name: Seq<char>,
    position: (u16, u16),
    size: (u16, u16),
    bordered: bool,
    keywords: Seq<Seq<char>>,
) -> bool {
    &&& after.wf()
    &&& after.area == before.area
    &&& after.updated == before.updated
    &&& after.resetWindows == before.resetWindows
    &&& if before.has(name) {
        let i = before.index_of(name);
        let w = after.windows@[i];
        &&& after.names == before.names
        &&& after.keywords == before.keywords
        &&& after.changeWindowLayout == before.changeWindowLayout
        &&& after.windows@.len() == before.windows@.len()
        &&& forall|k: int| 0 <= k < after.windows@.len() && k != i ==> #[trigger] after.windows@[k] == before.windows@[k]
        &&& w.position == position
        &&& w.size == size
        &&& w.lines == before.windows@[i].lines
        &&& w.bordered == before.windows@[i].bordered
        &&& w.depth == before.windows@[i].depth
        &&& w.title == before.windows@[i].title
        &&& w.color == before.windows@[i].color
        &&& w.hidden == before.windows@[i].hidden
        &&& size != before.windows@[i].size ==> w.updated@.len() == size.1
        &&& size == before.windows@[i].size ==> w.updated@.len() == before.windows@[i].updated@.len()
    } else {
        &&& after.names@.len() == before.names@.len() + 1
        &&& after.names@.last()@ == name
        &&& after.windows@.len() == before.windows@.len() + 1
        &&& after.keywords@.len() == before.keywords@.len() + 1
        &&& forall|k: int| 0 <= k < before.names@.len() ==> #[trigger] after.names@[k] == before.names@[k]
        &&& forall|k: int| 0 <= k < before.windows@.len() ==> #[trigger] after.windows@[k] == before.windows@[k]
        &&& forall|k: int| 0 <= k < before.keywords@.len() ==> #[trigger] after.keywords@[k] == before.keywords@[k]
        &&& after.keywords@.last()@.map_values(|s: String| s@) == keywords
        &&& fresh(after.windows@.last(), position, size, bordered)
        &&& after.changeWindowLayout
    }
}

/// Moves and resizes the window `name`, or adds it, new, when there is none.
fn place_window(
    app: &mut App,
    name: String,
    position: (u16, u16),
    size: (u16, u16),
    bordered: bool,
    keywords: Vec<String>,
)
    requires
        old(app).wf(),
    ensures
        placed(*old(app), *final(app), name@, position, size, bordered, keywords@.map_values(|s: String| s@)),
        final(app).has(name@),
{
    if app.ContainsWindow(name.clone()) {
        let ghost i = app.index_of(name@);
        let window = app.GetWindowReferenceMut(name);
        window.Move(position);
        window.Resize(size);
        proof {
            assert(app.names@[i]@ == name@);
        }
    } else {
        let mut window = Window::new(position, 0, size);
        if bordered {
            window.Bordered();
        }
        let ghost n = name@;
        app.AddWindow(window, name, keywords);
        proof {
            let k = (app.names@.len() - 1) as int;
            assert(app.names@[k]@ == n);
        }
    }
}

pub proof fn lemma_styled_text(text: Seq<char>, colors: Seq<ColorType>, mode: ColorMode)
    ensures
        styled(text, colors, mode).0 == text,
    decreases colors.len(),
{
    if colors.len() > 0 {
        lemma_styled_text(text, colors.drop_last(), mode);
    }
}

/// A line whose texts are each at most `bound` characters long has at most `len * bound`.
pub proof fn lemma_span_bound(cs: Seq<ColoredView>, bound: int)
    requires
        bound >= 0,
        forall|i: int| 0 <= i < cs.len() ==> (#[trigger] cs[i]).0.len() <= bound,
    ensures
        span_size(cs) <= cs.len() * bound,
    decreases cs.len(),
{
    if cs.len() > 0 {
        lemma_span_bound(cs.drop_last(), bound);
        assert(cs.last() == cs[cs.len() - 1]);
        assert((cs.len() - 1) * bound + bound == cs.len() * bound) by (nonlinear_arith);
    }
}

/// Plain bright white text.
pub open spec fn white(text: Seq<char>, mode: ColorMode) -> ColoredView {
    styled(text, seq![ColorType::BrightWhite], mode)
}

/// An option of a setting: highlighted when chosen.
pub open spec fn choice(text: Seq<char>, chosen: bool, mode: ColorMode) -> ColoredView {
    if chosen {
        styled(text, seq![ColorType::Yellow, ColorType::Bold, ColorType::Underline], mode)
    } else {
        white(text, mode)
    }
}

/// The color support setting's lines, with level `ct` chosen.
pub open spec fn color_setting_text(ct: ColorTypes, mode: ColorMode) -> Seq<Seq<ColoredView>> {
    seq![
        seq![
            white("Color Mode: ["@, mode), choice("Basic"@, ct == ColorTypes::Basic, mode), white("]"@, mode),
            white(" ["@, mode), choice("8-bit"@, ct == ColorTypes::Partial, mode), white("]"@, mode),
            white(" ["@, mode), choice("24-bit"@, ct == ColorTypes::True, mode), white("]"@, mode),
        ],
        seq![
            styled(
                " * Not all terminals accept all color modes. If the colors are messed up, try lowering this"@,
                seq![ColorType::White, ColorType::Dim, ColorType::Italic],
                mode,
            ),
        ],
    ]
}

/// The shortcut modifier setting's lines, with `k` chosen.
pub open spec fn keybind_setting_text(k: KeyModifiers, mode: ColorMode) -> Seq<Seq<ColoredView>> {
    seq![
        seq![
            white("Preferred Modifier Key: ["@, mode), choice("Command"@, k == KeyModifiers::Command, mode),
            white("]"@, mode), white(" ["@, mode), choice("Control"@, k == KeyModifiers::Control, mode),
            white("]"@, mode),
        ],
        seq![
            styled(
                " * The preferred modifier key for things like ctrl/cmd 'c'"@,
                seq![ColorType::BrightWhite, ColorType::Dim, ColorType::Italic],
                mode,
            ),
        ],
    ]
}

fn white_str(text: &str, mode: ColorMode) -> (c: Colored)
    ensures
        c@ == white(text@, mode),
{
    let v = vec![ColorType::BrightWhite];
    assert(v@ =~= seq![ColorType::BrightWhite]);
    styled_str(text, v, mode)
}

fn choice_str(text: &str, chosen: bool, mode: ColorMode) -> (c: Colored)
    ensures
        c@ == choice(text@, chosen, mode),
{
    if chosen {
        let v = vec![ColorType::Yellow, ColorType::Bold, ColorType::Underline];
        assert(v@ =~= seq![ColorType::Yellow, ColorType::Bold, ColorType::Underline]);
        styled_str(text, v, mode)
    } else {
        white_str(text, mode)
    }
}

/// The window `name` exists and has rows for `n` lines inside its border.
pub open spec fn has_room(app: App, name: Seq<char>, n: int) -> bool {
    &&& app.has(name)
    &&& n + app.windows@[app.index_of(name)].border_rows() <= app.windows@[app.index_of(name)].updated@.len()
}

/// The screen after window `name` changed from `before` in the way `changed` says, and
/// nothing else.
pub open spec fn only_changed(before: App, after: App, name: Seq<char>) -> bool {
    let i = before.index_of(name);
    &&& after.wf()
    &&& after.names == before.names
    &&& after.keywords == before.keywords
    &&& after.area == before.area
    &&& after.changeWindowLayout == before.changeWindowLayout
    &&& after.updated == before.updated
    &&& after.resetWindows == before.resetWindows
    &&& after.windows@.len() == before.windows@.len()
    &&& forall|k: int| 0 <= k < after.windows@.len() && k != i ==> #[trigger] after.windows@[k] == before.windows@[k]
    &&& same_frame(before.windows@[i], after.windows@[i])
}

/// The box window `name` is framed in bright blue when `on` (else uncolored) and shows
/// `text`.
pub open spec fn boxed(before: App, after: App, name: Seq<char>, on: bool, mode: ColorMode, text: Seq<Seq<ColoredView>>) -> bool {
    let i = before.index_of(name);
    &&& after.windows@[i].color@ == if on {
        tried_color(before.windows@[i].color@, ColorType::BrightBlue, mode)
    } else {
        cleared_color(before.windows@[i].color@)
    }
    &&& shows(after.windows@[i], text)
}

/// Frames the box window `name` when `on` and shows `lines` in it.
fn update_box(app: &mut App, name: String, on: bool, mode: ColorMode, lines: Vec<Span>)
    requires
        old(app).wf(),
        has_room(*old(app), name@, lines@.len() as int),
        forall|i: int| 0 <= i < lines@.len() ==> span_size(#[trigger] lines@[i]@) <= usize::MAX,
    ensures
        only_changed(*old(app), *final(app), name@),
        boxed(*old(app), *final(app), name@, on, mode, spans_view(lines@)),
{
    let ghost i = app.index_of(name@);
    let window = app.GetWindowReferenceMut(name);
    mark_box(window, on, ColorType::BrightBlue, mode);
    show_lines(window, lines);
    proof {
        assert forall|k: int| 0 <= k < app.windows@.len() implies #[trigger] app.windows@[k].wf() by {
            if k != i {
                assert(app.windows@[k] == old(app).windows@[k]);
            }
        }
    }
}

/// The welcome page: the greeting in large letters and how to quit, open a project and
/// open the settings.
pub open spec fn welcome_text(mode: ColorMode) -> Seq<Seq<ColoredView>> {
    seq![
        seq![
            styled("\\\\            //   .==  ||      _===_    _===_   ||\\    /||   .==  ||"@, seq![ColorType::Red, ColorType::Bold], mode),
        ],
        seq![
            styled(" \\\\          //   ||    ||     //   \\\\  //   \\\\  ||\\\\  //||  //    ||"@, seq![ColorType::Red, ColorType::Bold], mode),
        ],
        seq![
            styled("  \\\\  //\\\\  //    ||--  ||     ||       ||   ||  || \\\\// ||  ||--    "@, seq![ColorType::Red, ColorType::Bold], mode),
        ],
        seq![
            styled("   \\\\//  \\\\//     \\\\==  ||===  \\\\__=//  \\\\___//  ||      ||  \\\\==  []"@, seq![ColorType::Red, ColorType::Bold], mode),
        ],
        seq![],
        seq![],
        seq![
            styled("              The command prompt is bellow (Bottom Left):"@, seq![ColorType::White, ColorType::Bold], mode),
        ],
        seq![],
        seq![
            styled("                Press: <"@, seq![ColorType::BrightWhite, ColorType::Bold, ColorType::Dim], mode),
            styled("q"@, seq![ColorType::BrightWhite, ColorType::Bold, ColorType::Dim, ColorType::Italic, ColorType::Underline], mode),
            styled("> followed by <"@, seq![ColorType::BrightWhite, ColorType::Bold, ColorType::Dim], mode),
            styled("return"@, seq![ColorType::BrightWhite, ColorType::Bold, ColorType::Dim, ColorType::Italic, ColorType::Underline], mode),
            styled("> to quit"@, seq![], mode),
        ],
        seq![
            styled("           Type "@, seq![ColorType::BrightWhite, ColorType::Bold, ColorType::Dim], mode),
            styled("\"open\""@, seq![ColorType::BrightWhite, ColorType::Bold, ColorType::Dim, ColorType::Italic, ColorType::Underline], mode),
            styled(" followed by the path to the directory"@, seq![ColorType::BrightWhite, ColorType::Bold, ColorType::Dim], mode),
        ],
        seq![],
        seq![
            styled("          Type "@, seq![ColorType::BrightWhite, ColorType::Bold, ColorType::Dim], mode),
            styled("\"settings\""@, seq![ColorType::BrightWhite, ColorType::Bold, ColorType::Dim, ColorType::Italic, ColorType::Underline], mode),
            styled(" to open settings ( <"@, seq![ColorType::BrightWhite, ColorType::Bold, ColorType::Dim], mode),
            styled("esc"@, seq![ColorType::BrightWhite, ColorType::Bold, ColorType::Dim, ColorType::Italic, ColorType::Underline], mode),
            styled("> to leave )"@, seq![ColorType::BrightWhite, ColorType::Bold, ColorType::Dim], mode),
        ],
    ]
}

/// The keywords of the menu's windows.
pub open spec fn menu_words() -> Seq<Seq<char>> {
    seq!["Menu"@]
}

/// The keywords of the settings boxes.
pub open spec fn settings_words() -> Seq<Seq<char>> {
    seq!["Menu"@, "Settings"@]
}

/// `w` is one of the keywords.
pub open spec fn word_in(kws: Seq<String>, w: Seq<char>) -> bool {
    exists|j: int| 0 <= j < kws.len() && #[trigger] kws[j]@ == w
}

/// A menu window that is not one of the settings.
pub open spec fn menu_only(kws: Seq<String>) -> bool {
    word_in(kws, "Menu"@) && !word_in(kws, "Settings"@)
}

/// For each window, whether its keywords satisfy `pred`.
pub open spec fn marks_of(app: App, pred: spec_fn(Seq<String>) -> bool) -> Seq<bool> {
    Seq::new(app.names@.len(), |i: int| pred(app.keywords@[i]@))
}

/// `after` is `before` with the windows whose keywords satisfy `pred` removed.
pub open spec fn pruned_where(before: App, after: App, pred: spec_fn(Seq<String>) -> bool) -> bool {
    exists|c: int| #[trigger] after.pruned(&before, marks_of(before, pred), c)
}

/// `after` is `before`, pruned by `pred` when the layout is to be made again.
pub open spec fn pruned_if_changed(before: App, after: App, pred: spec_fn(Seq<String>) -> bool) -> bool {
    if before.changeWindowLayout {
        pruned_where(before, after, pred)
    } else {
        after == before
    }
}

fn menu_only_exec(kws: &Vec<String>) -> (b: bool)
    ensures
        b == menu_only(kws@),
{
    contains_string(kws, &string_of_str("Menu")) && !contains_string(kws, &string_of_str("Settings"))
}

fn one_word(w: &str) -> (v: Vec<String>)
    ensures
        v@.len() == 1,
        v@[0]@ == w@,
{
    vec![string_of_str(w)]
}

/// Removes the windows with `word` among their keywords when the layout is to be made again.
fn prune_word_if_changed(app: &mut App, word: &str)
    requires
        old(app).wf(),
    ensures
        final(app).wf(),
        pruned_if_changed(*old(app), *final(app), |kws: Seq<String>| word_in(kws, word@)),
{
    if app.ChangedWindowLayout() {
        let keys = one_word(word);
        let ghost k = keys@;
        let count = app.PruneByKeywords(keys);
        proof {
            let pred = |kws: Seq<String>| word_in(kws, word@);
            let m1 = Seq::new(old(app).names@.len(), |i: int| shares_word(old(app).keywords@[i]@, k));
            let m2 = Seq::new(old(app).names@.len(), |i: int| pred(old(app).keywords@[i]@));
            assert forall|i: int| 0 <= i < m1.len() implies m1[i] == m2[i] by {
                let kws = old(app).keywords@[i]@;
                if shares_word(kws, k) {
                    let (a, b) = choose|a: int, b: int| 0 <= a < kws.len() && 0 <= b < k.len() && #[trigger] kws[a]@ == #[trigger] k[b]@;
                    assert(kws[a]@ == word@);
                }
                if word_in(kws, word@) {
                    let a = choose|a: int| 0 <= a < kws.len() && #[trigger] kws[a]@ == word@;
                    assert(kws[a]@ == k[0]@);
                }
            }
            assert(m1 =~= m2);
            assert(m2 == marks_of(*old(app), pred));
            assert(app.pruned(old(app), marks_of(*old(app), pred), count as int));
        }
    }
}

/// The tab names of the code windows: their names without the leading `CodeBlock`.
pub open spec fn code_window_tabs(app: App) -> Seq<Seq<char>> {
    let sel = select(|i: int| word_in(app.keywords@[i]@, "CodeTab"@), app.names@.len() as int);
    Seq::new(sel.len(), |k: int| app.names@[sel[k]]@.subrange(9, app.names@[sel[k]]@.len() as int))
}

/// The tabs that get a new code window, in order: those without one among `existing` whose
/// window name is not yet taken in `names`.
pub open spec fn added_tabs(existing: Seq<Seq<char>>, names: Seq<Seq<char>>, tabs: Seq<Seq<char>>) -> Seq<Seq<char>>
    decreases tabs.len(),
{
    if tabs.len() == 0 {
        Seq::empty()
    } else {
        let t = tabs[0];
        if !existing.contains(t) && !names.contains("CodeBlock"@ + t) {
            seq![t] + added_tabs(existing, names.push("CodeBlock"@ + t), tabs.drop_first())
        } else {
            added_tabs(existing, names, tabs.drop_first())
        }
    }
}

/// The names of the tabs.
pub open spec fn tab_names(tabs: Seq<CodeTab>) -> Seq<Seq<char>> {
    tabs.map_values(|t: CodeTab| t.name@)
}

/// The left edge and the width taken from the code panes: the file browser's room while
/// the command prompt is open.
pub open spec fn pane_offsets(state: AppState) -> (u16, u16) {
    if state == AppState::CommandPrompt {
        (30, 29)
    } else {
        (0, 0)
    }
}

/// The window at `m + j` is the fresh code window of tab `t`.
pub open spec fn added_window(app: App, at: int, t: Seq<char>, padding: u16, size: (u16, u16)) -> bool {
    &&& app.names@[at]@ == "CodeBlock"@ + t
    &&& fresh(app.windows@[at], (padding, 2), size, true)
    &&& strs(app.keywords@[at]@) == seq!["CodeTab"@, t]
}

/// The screen after the code tab check of `me` on a terminal of `terminalSize` (see
/// `CheckCodeTabs`).
pub open spec fn code_tabs_checked(me: MainApp, before: App, fin: App, terminalSize: (u16, u16)) -> bool {
    let a = before;
    let f = a.index_of("Files"@);
    let n = a.names@.len();
    let added = added_tabs(code_window_tabs(a), strs(a.names@), tab_names(me.codeTabs.tabs@));
    let (padding, shift) = pane_offsets(me.appState);
    let size = (
        ((terminalSize.0 - shift) / ((me.codeTabs.panes@.len() + 1) as int)) as u16,
        (terminalSize.1 - 11) as u16,
    );
    let fw = fin.windows@[f];
    &&& fin.wf()
    &&& fin.names@.len() == n + added.len()
    &&& fin.windows@.len() == n + added.len()
    &&& fin.keywords@.len() == n + added.len()
    &&& forall|k: int| 0 <= k < n ==> #[trigger] fin.names@[k] == a.names@[k]
    &&& forall|k: int| 0 <= k < n ==> #[trigger] fin.keywords@[k] == a.keywords@[k]
    &&& forall|k: int| 0 <= k < n && k != f ==> #[trigger] fin.windows@[k] == a.windows@[k]
    &&& fw.hidden == (me.appState != AppState::CommandPrompt)
    &&& fw.position == a.windows@[f].position
    &&& fw.size == a.windows@[f].size
    &&& fw.lines == a.windows@[f].lines
    &&& fw.bordered == a.windows@[f].bordered
    &&& fw.title == a.windows@[f].title
    &&& fw.color == a.windows@[f].color
    &&& fw.updated@.len() == a.windows@[f].updated@.len()
    &&& forall|j: int| 0 <= j < added.len() ==> {
        &&& (#[trigger] fin.names@[n + j])@ == "CodeBlock"@ + added[j]
        &&& fresh(fin.windows@[n + j], (padding, 2), size, true)
        &&& strs(fin.keywords@[n + j]@) == seq!["CodeTab"@, added[j]]
    }
    &&& fin.area == a.area
    &&& fin.updated == a.updated
    &&& fin.resetWindows == a.resetWindows
    &&& fin.changeWindowLayout == (a.changeWindowLayout || added.len() > 0)
}

/// The keywords of the project's windows.
pub open spec fn project_words() -> Seq<Seq<char>> {
    seq!["Project"@]
}

/// Every code window's name is long enough to hold the `CodeBlock` prefix.
pub open spec fn code_names_ok(app: App) -> bool {
    forall|i: int| 0 <= i < app.names@.len() && word_in(app.keywords@[i]@, "CodeTab"@)
        ==> #[trigger] app.names@[i]@.len() >= 9
}

/// Placing a window that is not a code window keeps code window names long enough.
pub proof fn lemma_placed_keeps_code_names(
    before: App,
    after: App,
    name: Seq<char>,
    position: (u16, u16),
    size: (u16, u16),
    bordered: bool,
    keywords: Seq<Seq<char>>,
)
    requires
        code_names_ok(before),
        placed(before, after, name, position, size, bordered, keywords),
        !keywords.contains("CodeTab"@),
    ensures
        code_names_ok(after),
{
    assert forall|i: int| 0 <= i < after.names@.len() && word_in(after.keywords@[i]@, "CodeTab"@)
        implies #[trigger] after.names@[i]@.len() >= 9 by {
        if i < before.names@.len() {
            assert(after.names@[i] == before.names@[i]);
            assert(after.keywords@[i] == before.keywords@[i]);
        } else {
            let kws = after.keywords@[i]@;
            let j = choose|j: int| 0 <= j < kws.len() && #[trigger] kws[j]@ == "CodeTab"@;
            assert(kws.map_values(|s: String| s@)[j] == "CodeTab"@);
            assert(keywords.contains("CodeTab"@));
        }
    }
}

/// The tab bar's texts, colored in `mode`.
pub open spec fn tab_bar(labels: Seq<(Seq<char>, Seq<ColorType>)>, mode: ColorMode) -> Seq<ColoredView> {
    labels.map_values(|p: (Seq<char>, Seq<ColorType>)| styled(p.0, p.1, mode))
}

/// The error bar's lines: the completion offered, in italics, and the debug line, in bold.
pub open spec fn error_bar_text(app: MainApp) -> Seq<Seq<ColoredView>> {
    seq![
        seq![styled(": "@ + app.suggested@, seq![ColorType::Italic, app.colorMode.colorBindings.suggestion], app.renderMode)],
        seq![styled("Debug: "@ + app.debugInfo@, seq![ColorType::Bold, app.colorMode.colorBindings.errorCol], app.renderMode)],
    ]
}

/// The screen after the windows `names` changed from `before` (each keeping its place,
/// size and flags), and nothing else.
pub open spec fn changed_only(before: App, after: App, names: Seq<Seq<char>>) -> bool {
    &&& after.wf()
    &&& after.names == before.names
    &&& after.keywords == before.keywords
    &&& after.area == before.area
    &&& after.changeWindowLayout == before.changeWindowLayout
    &&& after.updated == before.updated
    &&& after.resetWindows == before.resetWindows
    &&& after.windows@.len() == before.windows@.len()
    &&& forall|k: int|
        0 <= k < after.windows@.len() && (forall|j: int| 0 <= j < names.len() ==> before.index_of(#[trigger] names[j]) != k)
            ==> #[trigger] after.windows@[k] == before.windows@[k]
    &&& forall|j: int| 0 <= j < names.len() ==> same_frame(
        before.windows@[before.index_of(#[trigger] names[j])],
        after.windows@[before.index_of(names[j])],
    )
}

/// Spans from the lines' texts.
fn spans_of(lines: Vec<Vec<Colored>>) -> (spans: Vec<Span>)
    ensures
        spans@.len() == lines@.len(),
        forall|i: int| 0 <= i < lines@.len() ==> (#[trigger] spans@[i])@ == lines@[i]@.map_values(|c: Colored| c@),
{
    let mut spans: Vec<Span> = Vec::new();
    let mut rest = lines;
    let ghost all = rest@;
    let mut rev: Vec<Vec<Colored>> = Vec::new();
    while rest.len() > 0
        invariant
            rev@.len() + rest@.len() == all.len(),
            rest@ == all.subrange(0, rest@.len() as int),
            forall|i: int| 0 <= i < rev@.len() ==> #[trigger] rev@[i] == all[all.len() - 1 - i],
        decreases rest@.len(),
    {
        let l = rest.pop().unwrap();
        rev.push(l);
    }
    while rev.len() > 0
        invariant
            spans@.len() + rev@.len() == all.len(),
            forall|i: int| 0 <= i < rev@.len() ==> #[trigger] rev@[i] == all[all.len() - 1 - i],
            forall|i: int| 0 <= i < spans@.len() ==> (#[trigger] spans@[i])@ == all[i]@.map_values(|c: Colored| c@),
        decreases rev@.len(),
    {
        let l = rev.pop().unwrap();
        spans.push(Span::FromTokens(l));
    }
    spans
}

/// The styled texts as colored texts in `mode`.
fn colored_of(texts: Vec<StyledText>, mode: ColorMode) -> (line: Vec<Colored>)
    ensures
        line@.len() == texts@.len(),
        forall|i: int| 0 <= i < texts@.len() ==> (#[trigger] line@[i])@ == styled(texts@[i].text@, texts@[i].styles@, mode),
{
    let ghost all = texts@;
    let mut rest = texts;
    let mut rev: Vec<StyledText> = Vec::new();
    while rest.len() > 0
        invariant
            rev@.len() + rest@.len() == all.len(),
            rest@ == all.subrange(0, rest@.len() as int),
            forall|i: int| 0 <= i < rev@.len() ==> #[trigger] rev@[i] == all[all.len() - 1 - i],
        decreases rest@.len(),
    {
        let t = rest.pop().unwrap();
        rev.push(t);
    }
    let mut line: Vec<Colored> = Vec::new();
    while rev.len() > 0
        invariant
            line@.len() + rev@.len() == all.len(),
            forall|i: int| 0 <= i < rev@.len() ==> #[trigger] rev@[i] == all[all.len() - 1 - i],
            forall|i: int| 0 <= i < line@.len() ==> (#[trigger] line@[i])@ == styled(all[i].text@, all[i].styles@, mode),
        decreases rev@.len(),
    {
        let t = rev.pop().unwrap();
        let c = Colored::GetFromColorTypesStr(t.text.as_str(), t.styles, mode);
        line.push(c);
    }
    line
}

impl MainApp {
    /// The welcome page's lines.
    #[verifier::spinoff_prover]
    #[verifier::rlimit(60)]
    fn WelcomeText(&self) -> (lines: Vec<Span>)
        ensures
            spans_view(lines@) == welcome_text(self.renderMode),
            forall|i: int| 0 <= i < lines@.len() ==> span_size(#[trigger] lines@[i]@) <= usize::MAX,
    {
        let mode = self.renderMode;
        let k0_0 = vec![ColorType::Red, ColorType::Bold];
        proof { assert(k0_0@ =~= seq![ColorType::Red, ColorType::Bold]); }
        let c0_0 = styled_str("\\\\            //   .==  ||      _===_    _===_   ||\\    /||   .==  ||", k0_0, mode);
        let line0: Vec<Colored> = vec![c0_0];
        let k1_0 = vec![ColorType::Red, ColorType::Bold];
        proof { assert(k1_0@ =~= seq![ColorType::Red, ColorType::Bold]); }
        let c1_0 = styled_str(" \\\\          //   ||    ||     //   \\\\  //   \\\\  ||\\\\  //||  //    ||", k1_0, mode);
        let line1: Vec<Colored> = vec![c1_0];
        let k2_0 = vec![ColorType::Red, ColorType::Bold];
        proof { assert(k2_0@ =~= seq![ColorType::Red, ColorType::Bold]); }
        let c2_0 = styled_str("  \\\\  //\\\\  //    ||--  ||     ||       ||   ||  || \\\\// ||  ||--    ", k2_0, mode);
        let line2: Vec<Colored> = vec![c2_0];
        let k3_0 = vec![ColorType::Red, ColorType::Bold];
        proof { assert(k3_0@ =~= seq![ColorType::Red, ColorType::Bold]); }
        let c3_0 = styled_str("   \\\\//  \\\\//     \\\\==  ||===  \\\\__=//  \\\\___//  ||      ||  \\\\==  []", k3_0, mode);
        let line3: Vec<Colored> = vec![c3_0];
        let line4: Vec<Colored> = vec![];
        let line5: Vec<Colored> = vec![];
        let k6_0 = vec![ColorType::White, ColorType::Bold];
        proof { assert(k6_0@ =~= seq![ColorType::White, ColorType::Bold]); }
        let c6_0 = styled_str("              The command prompt is bellow (Bottom Left):", k6_0, mode);
        let line6: Vec<Colored> = vec![c6_0];
        let line7: Vec<Colored> = vec![];
        let k8_0 = vec![ColorType::BrightWhite, ColorType::Bold, ColorType::Dim];
        proof { assert(k8_0@ =~= seq![ColorType::BrightWhite, ColorType::Bold, ColorType::Dim]); }
        let c8_0 = styled_str("                Press: <", k8_0, mode);
        let k8_1 = vec![ColorType::BrightWhite, ColorType::Bold, ColorType::Dim, ColorType::Italic, ColorType::Underline];
        proof { assert(k8_1@ =~= seq![ColorType::BrightWhite, ColorType::Bold, ColorType::Dim, ColorType::Italic, ColorType::Underline]); }
        let c8_1 = styled_str("q", k8_1, mode);
        let k8_2 = vec![ColorType::BrightWhite, ColorType::Bold, ColorType::Dim];
        proof { assert(k8_2@ =~= seq![ColorType::BrightWhite, ColorType::Bold, ColorType::Dim]); }
        let c8_2 = styled_str("> followed by <", k8_2, mode);
        let k8_3 = vec![ColorType::BrightWhite, ColorType::Bold, ColorType::Dim, ColorType::Italic, ColorType::Underline];
        proof { assert(k8_3@ =~= seq![ColorType::BrightWhite, ColorType::Bold, ColorType::Dim, ColorType::Italic, ColorType::Underline]); }
        let c8_3 = styled_str("return", k8_3, mode);
        let k8_4 = vec![];
        proof { assert(k8_4@ =~= seq![]); }
        let c8_4 = styled_str("> to quit", k8_4, mode);
        let line8: Vec<Colored> = vec![c8_0, c8_1, c8_2, c8_3, c8_4];
        let k9_0 = vec![ColorType::BrightWhite, ColorType::Bold, ColorType::Dim];
        proof { assert(k9_0@ =~= seq![ColorType::BrightWhite, ColorType::Bold, ColorType::Dim]); }
        let c9_0 = styled_str("           Type ", k9_0, mode);
        let k9_1 = vec![ColorType::BrightWhite, ColorType::Bold, ColorType::Dim, ColorType::Italic, ColorType::Underline];
        proof { assert(k9_1@ =~= seq![ColorType::BrightWhite, ColorType::Bold, ColorType::Dim, ColorType::Italic, ColorType::Underline]); }
        let c9_1 = styled_str("\"open\"", k9_1, mode);
        let k9_2 = vec![ColorType::BrightWhite, ColorType::Bold, ColorType::Dim];
        proof { assert(k9_2@ =~= seq![ColorType::BrightWhite, ColorType::Bold, ColorType::Dim]); }
        let c9_2 = styled_str(" followed by the path to the directory", k9_2, mode);
        let line9: Vec<Colored> = vec![c9_0, c9_1, c9_2];
        let line10: Vec<Colored> = vec![];
        let k11_0 = vec![ColorType::BrightWhite, ColorType::Bold, ColorType::Dim];
        proof { assert(k11_0@ =~= seq![ColorType::BrightWhite, ColorType::Bold, ColorType::Dim]); }
        let c11_0 = styled_str("          Type ", k11_0, mode);
        let k11_1 = vec![ColorType::BrightWhite, ColorType::Bold, ColorType::Dim, ColorType::Italic, ColorType::Underline];
        proof { assert(k11_1@ =~= seq![ColorType::BrightWhite, ColorType::Bold, ColorType::Dim, ColorType::Italic, ColorType::Underline]); }
        let c11_1 = styled_str("\"settings\"", k11_1, mode);
        let k11_2 = vec![ColorType::BrightWhite, ColorType::Bold, ColorType::Dim];
        proof { assert(k11_2@ =~= seq![ColorType::BrightWhite, ColorType::Bold, ColorType::Dim]); }
        let c11_2 = styled_str(" to open settings ( <", k11_2, mode);
        let k11_3 = vec![ColorType::BrightWhite, ColorType::Bold, ColorType::Dim, ColorType::Italic, ColorType::Underline];
        proof { assert(k11_3@ =~= seq![ColorType::BrightWhite, ColorType::Bold, ColorType::Dim, ColorType::Italic, ColorType::Underline]); }
        let c11_3 = styled_str("esc", k11_3, mode);
        let k11_4 = vec![ColorType::BrightWhite, ColorType::Bold, ColorType::Dim];
        proof { assert(k11_4@ =~= seq![ColorType::BrightWhite, ColorType::Bold, ColorType::Dim]); }
        let c11_4 = styled_str("> to leave )", k11_4, mode);
        let line11: Vec<Colored> = vec![c11_0, c11_1, c11_2, c11_3, c11_4];
        proof {
            let t = welcome_text(mode);
            assert(line0@.map_values(|c: Colored| c@) =~= t[0]);
            assert(line1@.map_values(|c: Colored| c@) =~= t[1]);
            assert(line2@.map_values(|c: Colored| c@) =~= t[2]);
            assert(line3@.map_values(|c: Colored| c@) =~= t[3]);
            assert(line4@.map_values(|c: Colored| c@) =~= t[4]);
            assert(line5@.map_values(|c: Colored| c@) =~= t[5]);
            assert(line6@.map_values(|c: Colored| c@) =~= t[6]);
            assert(line7@.map_values(|c: Colored| c@) =~= t[7]);
            assert(line8@.map_values(|c: Colored| c@) =~= t[8]);
            assert(line9@.map_values(|c: Colored| c@) =~= t[9]);
            assert(line10@.map_values(|c: Colored| c@) =~= t[10]);
            assert(line11@.map_values(|c: Colored| c@) =~= t[11]);
        }
        let ghost v0 = line0@;
        let ghost v1 = line1@;
        let ghost v2 = line2@;
        let ghost v3 = line3@;
        let ghost v4 = line4@;
        let ghost v5 = line5@;
        let ghost v6 = line6@;
        let ghost v7 = line7@;
        let ghost v8 = line8@;
        let ghost v9 = line9@;
        let ghost v10 = line10@;
        let ghost v11 = line11@;
        let lines = vec![line0, line1, line2, line3, line4, line5, line6, line7, line8, line9, line10, line11];
        proof {
            assert(lines@[0]@ == v0);
            assert(lines@[1]@ == v1);
            assert(lines@[2]@ == v2);
            assert(lines@[3]@ == v3);
            assert(lines@[4]@ == v4);
            assert(lines@[5]@ == v5);
            assert(lines@[6]@ == v6);
            assert(lines@[7]@ == v7);
            assert(lines@[8]@ == v8);
            assert(lines@[9]@ == v9);
            assert(lines@[10]@ == v10);
            assert(lines@[11]@ == v11);
        }
        let welcomeText = spans_of(lines);
        proof {
            let t = welcome_text(mode);
            assert(spans_view(welcomeText@) =~= t);
            reveal_strlit("                Press: <");
            reveal_strlit("              The command prompt is bellow (Bottom Left):");
            reveal_strlit("           Type ");
            reveal_strlit("          Type ");
            reveal_strlit("   \\\\//  \\\\//     \\\\==  ||===  \\\\__=//  \\\\___//  ||      ||  \\\\==  []");
            reveal_strlit("  \\\\  //\\\\  //    ||--  ||     ||       ||   ||  || \\\\// ||  ||--    ");
            reveal_strlit(" \\\\          //   ||    ||     //   \\\\  //   \\\\  ||\\\\  //||  //    ||");
            reveal_strlit(" followed by the path to the directory");
            reveal_strlit(" to open settings ( <");
            reveal_strlit("> followed by <");
            reveal_strlit("> to leave )");
            reveal_strlit("> to quit");
            reveal_strlit("\"open\"");
            reveal_strlit("\"settings\"");
            reveal_strlit("\\\\            //   .==  ||      _===_    _===_   ||\\    /||   .==  ||");
            reveal_strlit("esc");
            reveal_strlit("q");
            reveal_strlit("return");
            assert forall|i: int| 0 <= i < welcomeText@.len() implies span_size(#[trigger] welcomeText@[i]@) <= usize::MAX by {
                let cs = t[i];
                assert forall|k: int| 0 <= k < cs.len() implies (#[trigger] cs[k]).0.len() <= 100 by {
                    lemma_styled_text("                Press: <"@, seq![ColorType::BrightWhite, ColorType::Bold, ColorType::Dim], mode);
                    lemma_styled_text("              The command prompt is bellow (Bottom Left):"@, seq![ColorType::White, ColorType::Bold], mode);
                    lemma_styled_text("           Type "@, seq![ColorType::BrightWhite, ColorType::Bold, ColorType::Dim], mode);
                    lemma_styled_text("          Type "@, seq![ColorType::BrightWhite, ColorType::Bold, ColorType::Dim], mode);
                    lemma_styled_text("   \\\\//  \\\\//     \\\\==  ||===  \\\\__=//  \\\\___//  ||      ||  \\\\==  []"@, seq![ColorType::Red, ColorType::Bold], mode);
                    lemma_styled_text("  \\\\  //\\\\  //    ||--  ||     ||       ||   ||  || \\\\// ||  ||--    "@, seq![ColorType::Red, ColorType::Bold], mode);
                    lemma_styled_text(" \\\\          //   ||    ||     //   \\\\  //   \\\\  ||\\\\  //||  //    ||"@, seq![ColorType::Red, ColorType::Bold], mode);
                    lemma_styled_text(" followed by the path to the directory"@, seq![ColorType::BrightWhite, ColorType::Bold, ColorType::Dim], mode);
                    lemma_styled_text(" to open settings ( <"@, seq![ColorType::BrightWhite, ColorType::Bold, ColorType::Dim], mode);
                    lemma_styled_text("> followed by <"@, seq![ColorType::BrightWhite, ColorType::Bold, ColorType::Dim], mode);
                    lemma_styled_text("> to leave )"@, seq![ColorType::BrightWhite, ColorType::Bold, ColorType::Dim], mode);
                    lemma_styled_text("> to quit"@, seq![], mode);
                    lemma_styled_text("\"open\""@, seq![ColorType::BrightWhite, ColorType::Bold, ColorType::Dim, ColorType::Italic, ColorType::Underline], mode);
                    lemma_styled_text("\"settings\""@, seq![ColorType::BrightWhite, ColorType::Bold, ColorType::Dim, ColorType::Italic, ColorType::Underline], mode);
                    lemma_styled_text("\\\\            //   .==  ||      _===_    _===_   ||\\    /||   .==  ||"@, seq![ColorType::Red, ColorType::Bold], mode);
                    lemma_styled_text("esc"@, seq![ColorType::BrightWhite, ColorType::Bold, ColorType::Dim, ColorType::Italic, ColorType::Underline], mode);
                    lemma_styled_text("q"@, seq![ColorType::BrightWhite, ColorType::Bold, ColorType::Dim, ColorType::Italic, ColorType::Underline], mode);
                    lemma_styled_text("return"@, seq![ColorType::BrightWhite, ColorType::Bold, ColorType::Dim, ColorType::Italic, ColorType::Underline], mode);
                }
                lemma_span_bound(cs, 100);
            }
        }
        welcomeText
    }

    /// Places the menu's windows on a terminal of `terminalSize`: the welcome box in the
    /// middle (the settings boxes pruned when the layout changed), or the two settings boxes
    /// (the other menu windows pruned when the layout changed).
    pub fn CheckWindowsMenu(&mut self, app: &mut App, terminalSize: (u16, u16))
        requires
            old(app).wf(),
            old(self).menuState == MenuState::Welcome ==> terminalSize.0 / 2 >= 35 && terminalSize.1 / 2 >= 10,
            old(self).menuState == MenuState::Settings ==> terminalSize.0 >= 20,
        ensures
            *final(self) == *old(self),
            final(app).wf(),
            old(self).menuState == MenuState::Welcome ==> exists|mid: App| {
                &&& #[trigger] placed(
                    *old(app),
                    mid,
                    "Welcome"@,
                    ((terminalSize.0 / 2 - 35) as u16, (terminalSize.1 / 2 - 10) as u16),
                    (71, 15),
                    true,
                    menu_words(),
                )
                &&& pruned_if_changed(mid, *final(app), |kws: Seq<String>| word_in(kws, "Settings"@))
            },
            old(self).menuState == MenuState::Settings ==> exists|m1: App, m2: App| {
                &&& #[trigger] placed(*old(app), m1, "ColorSetting"@, (10, 2), ((terminalSize.0 - 20) as u16, 4), true, settings_words())
                &&& #[trigger] placed(m1, m2, "KeybindSetting"@, (10, 6), ((terminalSize.0 - 20) as u16, 4), true, settings_words())
                &&& pruned_if_changed(m2, *final(app), |kws: Seq<String>| menu_only(kws))
            },
    {
        match self.menuState {
            MenuState::Welcome => {
                let ghost a0 = *app;
                let kws = one_word("Menu");
                proof {
                    assert(kws@.map_values(|s: String| s@) =~= menu_words());
                }
                place_window(app, string_of_str("Welcome"), (terminalSize.0 / 2 - 35, terminalSize.1 / 2 - 10), (71, 15), true, kws);
                let ghost mid = *app;
                prune_word_if_changed(app, "Settings");
                proof {
                    assert(placed(a0, mid, "Welcome"@, ((terminalSize.0 / 2 - 35) as u16, (terminalSize.1 / 2 - 10) as u16), (71, 15), true, menu_words()));
                }
            },
            MenuState::Settings => {
                let ghost a0 = *app;
                let mut kws = one_word("Menu");
                kws.push(string_of_str("Settings"));
                proof {
                    assert(kws@.map_values(|s: String| s@) =~= settings_words());
                }
                place_window(app, string_of_str("ColorSetting"), (10, 2), (terminalSize.0 - 20, 4), true, kws);
                let ghost m1 = *app;
                let mut kws = one_word("Menu");
                kws.push(string_of_str("Settings"));
                proof {
                    assert(kws@.map_values(|s: String| s@) =~= settings_words());
                }
                place_window(app, string_of_str("KeybindSetting"), (10, 6), (terminalSize.0 - 20, 4), true, kws);
                let ghost m2 = *app;
                if app.ChangedWindowLayout() {
                    let f = |keywords: &Vec<String>| -> (b: bool)
                        ensures
                            b == menu_only(keywords@),
                        { menu_only_exec(keywords) };
                    let count = app.PruneByKey(f);
                    proof {
                        let pred = |kws: Seq<String>| menu_only(kws);
                        let marks = choose|marks: Seq<bool>| #[trigger] app.pruned(&m2, marks, count as int)
                            && forall|i: int| 0 <= i < marks.len() ==> call_ensures(f, (&m2.keywords@[i],), #[trigger] marks[i]);
                        let m = Seq::new(m2.names@.len(), |i: int| pred(m2.keywords@[i]@));
                        assert forall|i: int| 0 <= i < marks.len() implies marks[i] == m[i] by {
                            assert(call_ensures(f, (&m2.keywords@[i],), marks[i]));
                        }
                        assert(marks =~= m);
                        assert(m == marks_of(m2, pred));
                        assert(app.pruned(&m2, marks_of(m2, pred), count as int));
                    }
                }
                proof {
                    assert(placed(a0, m1, "ColorSetting"@, (10, 2), ((terminalSize.0 - 20) as u16, 4), true, settings_words()));
                    assert(placed(m1, m2, "KeybindSetting"@, (10, 6), ((terminalSize.0 - 20) as u16, 4), true, settings_words()));
                }
            },
        }
    }

    /// Shows the file browser while the command prompt is open (hides it otherwise), and
    /// gives every tab without a code window a new bordered one, named `CodeBlock` and the
    /// tab's name, with the keywords `CodeTab` and the tab's name (see `added_tabs`).
    #[verifier::spinoff_prover]
    #[verifier::rlimit(40)]
    pub fn CheckCodeTabs(&mut self, app: &mut App, terminalSize: (u16, u16))
        requires
            old(app).wf(),
            old(app).has("Files"@),
            forall|i: int| 0 <= i < old(app).names@.len() && word_in(old(app).keywords@[i]@, "CodeTab"@)
                ==> #[trigger] old(app).names@[i]@.len() >= 9,
            terminalSize.0 >= pane_offsets(old(self).appState).1,
            terminalSize.1 >= 11,
            old(self).codeTabs.panes@.len() < 65535,
        ensures
            *final(self) == *old(self),
            code_tabs_checked(*old(self), *old(app), *final(app), terminalSize),
    {
        let ghost a = *app;
        let keys = one_word("CodeTab");
        let ghost k = keys@;
        let found = app.GetWindowsByKeywordsNonRef(keys);
        let ghost sel = select(|i: int| word_in(a.keywords@[i]@, "CodeTab"@), a.names@.len() as int);
        proof {
            let p1 = |i: int| shares_word(a.keywords@[i]@, k);
            let p2 = |i: int| word_in(a.keywords@[i]@, "CodeTab"@);
            assert forall|i: int| 0 <= i < a.names@.len() implies #[trigger] p1(i) == p2(i) by {
                let kws = a.keywords@[i]@;
                if shares_word(kws, k) {
                    let (x, y) = choose|x: int, y: int| 0 <= x < kws.len() && 0 <= y < k.len() && #[trigger] kws[x]@ == #[trigger] k[y]@;
                    assert(kws[x]@ == "CodeTab"@);
                }
                if word_in(kws, "CodeTab"@) {
                    let x = choose|x: int| 0 <= x < kws.len() && #[trigger] kws[x]@ == "CodeTab"@;
                    assert(kws[x]@ == k[0]@);
                }
            }
            lemma_select_agree(p1, p2, a.names@.len() as int);
            lemma_select_bounds(p2, a.names@.len() as int);
        }
        let mut names: Vec<String> = Vec::new();
        let mut i: usize = 0;
        while i < found.len()
            invariant
                i <= found@.len(),
                found@.len() == sel.len(),
                sel == select(|i: int| word_in(a.keywords@[i]@, "CodeTab"@), a.names@.len() as int),
                forall|q: int| 0 <= q < sel.len() ==> #[trigger] found@[q]@ == a.names@[sel[q]]@,
                forall|q: int| 0 <= q < sel.len() ==> 0 <= #[trigger] sel[q] < a.names@.len()
                    && word_in(a.keywords@[sel[q]]@, "CodeTab"@),
                forall|i: int| 0 <= i < a.names@.len() && word_in(a.keywords@[i]@, "CodeTab"@)
                    ==> #[trigger] a.names@[i]@.len() >= 9,
                names@.len() == i,
                forall|q: int| 0 <= q < i ==> #[trigger] names@[q]@ == code_window_tabs(a)[q],
            decreases found@.len() - i,
        {
            let size = char_len(&found[i]);
            proof {
                assert(a.names@[sel[i as int]]@.len() >= 9);
            }
            names.push(substring(&found[i], 9, size));
            i = i + 1;
        }
        let ghost existing = code_window_tabs(a);
        let (padding, shift): (u16, u16) = if self.appState == AppState::CommandPrompt {
            let files = app.GetWindowReferenceMut(string_of_str("Files"));
            files.Show();
            (30, 29)
        } else {
            let files = app.GetWindowReferenceMut(string_of_str("Files"));
            files.Hide();
            (0, 0)
        };
        let ghost mid = *app;
        let ghost f = a.index_of("Files"@);
        proof {
            assert forall|q: int| 0 <= q < app.windows@.len() implies #[trigger] app.windows@[q].wf() by {
                if q != f {
                    assert(app.windows@[q] == a.windows@[q]);
                }
            }
            assert(existing.len() == names@.len());
        }
        let width = (terminalSize.0 - shift) / (self.codeTabs.panes.len() as u16 + 1);
        let size = (width, terminalSize.1 - 11);
        proof {
            let p = self.codeTabs.panes@.len();
            assert((p as u16) as int == p);
            assert(size.0 == ((terminalSize.0 - shift) / ((p + 1) as int)) as u16);
        }
        let ghost tabs = tab_names(self.codeTabs.tabs@);
        let ghost mut done: Seq<Seq<char>> = Seq::empty();
        proof {
            assert(tabs.skip(0) =~= tabs);
            assert(done + added_tabs(existing, strs(app.names@), tabs.skip(0)) =~= added_tabs(existing, strs(app.names@), tabs.skip(0)));
        }
        let mut t: usize = 0;
        while t < self.codeTabs.tabs.len()
            invariant
                *self == *old(self),
                tabs == tab_names(self.codeTabs.tabs@),
                t <= tabs.len(),
                app.wf(),
                names@.len() == existing.len(),
                forall|q: int| 0 <= q < names@.len() ==> #[trigger] names@[q]@ == existing[q],
                added_tabs(existing, strs(mid.names@), tabs) == done + added_tabs(existing, strs(app.names@), tabs.skip(t as int)),
                app.names@.len() == mid.names@.len() + done.len(),
                app.windows@.len() == mid.windows@.len() + done.len(),
                app.keywords@.len() == mid.keywords@.len() + done.len(),
                forall|q: int| 0 <= q < mid.names@.len() ==> #[trigger] app.names@[q] == mid.names@[q],
                forall|q: int| 0 <= q < mid.names@.len() ==> #[trigger] app.keywords@[q] == mid.keywords@[q],
                forall|q: int| 0 <= q < mid.names@.len() ==> #[trigger] app.windows@[q] == mid.windows@[q],
                forall|j: int| 0 <= j < done.len() ==> #[trigger] added_window(*app, mid.names@.len() + j, done[j], padding, size),
                app.area == mid.area,
                app.updated == mid.updated,
                app.resetWindows == mid.resetWindows,
                app.changeWindowLayout == (mid.changeWindowLayout || done.len() > 0),
            decreases tabs.len() - t,
        {
            let name = &self.codeTabs.tabs[t].name;
            let windowName = concat(&string_of_str("CodeBlock"), name);
            let ghost cur = strs(app.names@);
            proof {
                assert(tabs.skip(t as int)[0] == tabs[t as int]);
                assert(tabs.skip(t as int).drop_first() =~= tabs.skip(t + 1));
                assert(tabs[t as int] == name@);
            }
            let known = contains_string(&names, name);
            let taken = app.ContainsWindow(windowName.clone());
            proof {
                assert(known == existing.contains(name@)) by {
                    if known {
                        let q = choose|q: int| 0 <= q < names@.len() && #[trigger] names@[q]@ == name@;
                        assert(existing[q] == name@);
                    }
                    if existing.contains(name@) {
                        let q = choose|q: int| 0 <= q < existing.len() && existing[q] == name@;
                        assert(names@[q]@ == name@);
                    }
                }
                assert(taken == cur.contains("CodeBlock"@ + name@)) by {
                    if taken {
                        let q = choose|q: int| 0 <= q < app.names@.len() && #[trigger] app.names@[q]@ == windowName@;
                        assert(cur[q] == windowName@);
                    }
                    if cur.contains("CodeBlock"@ + name@) {
                        let q = choose|q: int| 0 <= q < cur.len() && cur[q] == "CodeBlock"@ + name@;
                        assert(app.names@[q]@ == windowName@);
                    }
                }
            }
            if !known && !taken {
                let mut window = Window::new((padding, 2), 0, size);
                window.Bordered();
                let mut kws = one_word("CodeTab");
                kws.push(name.clone());
                proof {
                    assert(fresh(window, (padding, 2), size, true));
                    assert(strs(kws@) =~= seq!["CodeTab"@, name@]);
                }
                let ghost d0 = done;
                let ghost wv = window;
                let ghost wn = windowName@;
                let ghost app0 = *app;
                app.AddWindow(window, windowName, kws);
                proof {
                    done = done.push(name@);
                    assert(strs(app.names@) =~= cur.push(wn));
                    let m = mid.names@.len();
                    assert forall|j: int| 0 <= j < done.len() implies #[trigger] added_window(*app, m + j, done[j], padding, size) by {
                        if j < d0.len() {
                            assert(added_window(app0, m + j, d0[j], padding, size));
                            assert(app.names@[m + j] == app0.names@[m + j]);
                            assert(app.windows@[m + j] == app0.windows@[m + j]);
                            assert(app.keywords@[m + j] == app0.keywords@[m + j]);
                        } else {
                            assert(app.keywords@[m + j] == kws);
                            assert(app.windows@[m + j] == wv);
                            assert(app.names@[m + j]@ == wn);
                        }
                    }
                    assert(done + added_tabs(existing, strs(app.names@), tabs.skip(t + 1))
                        =~= d0 + added_tabs(existing, cur, tabs.skip(t as int)));
                }
            }
            t = t + 1;
        }
        proof {
            assert(tabs.skip(tabs.len() as int) =~= Seq::<Seq<char>>::empty());
            assert(done =~= added_tabs(existing, strs(a.names@), tabs));
            assert(mid.names == a.names);
            let n = a.names@.len();
            assert(app.names@.len() == n + done.len());
            assert(forall|q: int| 0 <= q < n ==> #[trigger] app.names@[q] == a.names@[q]);
            assert(forall|q: int| 0 <= q < n ==> #[trigger] app.keywords@[q] == a.keywords@[q]);
            assert(forall|q: int| 0 <= q < n && q != f ==> #[trigger] app.windows@[q] == a.windows@[q]);
            assert(app.windows@[f].hidden == (self.appState != AppState::CommandPrompt));
            assert(app.windows@[f].position == a.windows@[f].position);
            assert(app.windows@[f].updated@.len() == a.windows@[f].updated@.len());
            assert forall|j: int| 0 <= j < done.len() implies {
                &&& (#[trigger] app.names@[n + j])@ == "CodeBlock"@ + done[j]
                &&& fresh(app.windows@[n + j], (padding, 2), size, true)
                &&& strs(app.keywords@[n + j]@) == seq!["CodeTab"@, done[j]]
            } by {
                assert(added_window(*app, n + j, done[j], padding, size));
            }
            assert((padding, shift) == pane_offsets(self.appState));
            assert(tabs == tab_names(old(self).codeTabs.tabs@));
            assert(existing == code_window_tabs(*old(app)));
            let added = added_tabs(code_window_tabs(a), strs(a.names@), tab_names(old(self).codeTabs.tabs@));
            assert(added == done);
            assert(app.wf());
            assert(app.windows@.len() == n + added.len());
            assert(app.keywords@.len() == n + added.len());
            let fw = app.windows@[f];
            assert(fw.size == a.windows@[f].size);
            assert(fw.lines == a.windows@[f].lines);
            assert(fw.bordered == a.windows@[f].bordered);
            assert(fw.title == a.windows@[f].title);
            assert(fw.color == a.windows@[f].color);
            assert(app.area == a.area);
            assert(app.updated == a.updated);
            assert(app.resetWindows == a.resetWindows);
            assert(app.changeWindowLayout == (a.changeWindowLayout || added.len() > 0));
            let sz = (
                ((terminalSize.0 - pane_offsets(old(self).appState).1) / ((old(self).codeTabs.panes@.len() + 1) as int)) as u16,
                (terminalSize.1 - 11) as u16,
            );
            assert(sz == size);
            assert(code_tabs_checked(*old(self), a, *app, terminalSize));
        }
    }

    /// Places the project's windows on a terminal of `terminalSize`: the tab bar along the
    /// top right of the file browser's column, the error bar along the bottom, the file
    /// browser down the left, the code windows (see `CheckCodeTabs`), and prunes the menu's
    /// windows when the layout changed.
    pub fn CheckWindowsProject(&mut self, app: &mut App, terminalSize: (u16, u16))
        requires
            old(app).wf(),
            code_names_ok(*old(app)),
            terminalSize.0 >= 29,
            terminalSize.1 >= 11,
            old(self).codeTabs.panes@.len() < 65535,
        ensures
            *final(self) == *old(self),
            final(app).wf(),
            exists|m1: App, m2: App, m3: App, m4: App| {
                &&& #[trigger] placed(*old(app), m1, "Tabs"@, (30, 0), ((terminalSize.0 - 29) as u16, 1), false, project_words())
                &&& #[trigger] placed(m1, m2, "ErrorBar"@, (0, (terminalSize.1 - 9) as u16), (terminalSize.0, 8), true, project_words())
                &&& #[trigger] placed(m2, m3, "Files"@, (0, 1), (30, (terminalSize.1 - 9) as u16), true, project_words())
                &&& #[trigger] code_tabs_checked(*old(self), m3, m4, terminalSize)
                &&& pruned_if_changed(m4, *final(app), |kws: Seq<String>| word_in(kws, "Menu"@))
            },
    {
        proof {
            reveal_strlit("Project");
            reveal_strlit("CodeTab");
            assert("Project"@[0] != "CodeTab"@[0]);
            assert(!project_words().contains("CodeTab"@));
        }
        let ghost a0 = *app;
        let kws = one_word("Project");
        proof {
            assert(kws@.map_values(|s: String| s@) =~= project_words());
        }
        place_window(app, string_of_str("Tabs"), (30, 0), (terminalSize.0 - 29, 1), false, kws);
        let ghost m1 = *app;
        proof {
            lemma_placed_keeps_code_names(a0, m1, "Tabs"@, (30, 0), ((terminalSize.0 - 29) as u16, 1), false, project_words());
        }
        let kws = one_word("Project");
        proof {
            assert(kws@.map_values(|s: String| s@) =~= project_words());
        }
        place_window(app, string_of_str("ErrorBar"), (0, terminalSize.1 - 9), (terminalSize.0, 8), true, kws);
        let ghost m2 = *app;
        proof {
            lemma_placed_keeps_code_names(m1, m2, "ErrorBar"@, (0, (terminalSize.1 - 9) as u16), (terminalSize.0, 8), true, project_words());
        }
        let kws = one_word("Project");
        proof {
            assert(kws@.map_values(|s: String| s@) =~= project_words());
        }
        place_window(app, string_of_str("Files"), (0, 1), (30, terminalSize.1 - 9), true, kws);
        let ghost m3 = *app;
        proof {
            lemma_placed_keeps_code_names(m2, m3, "Files"@, (0, 1), (30, (terminalSize.1 - 9) as u16), true, project_words());
        }
        self.CheckCodeTabs(app, terminalSize);
        let ghost m4 = *app;
        prune_word_if_changed(app, "Menu");
        proof {
            assert(placed(a0, m1, "Tabs"@, (30, 0), ((terminalSize.0 - 29) as u16, 1), false, project_words()));
            assert(placed(m1, m2, "ErrorBar"@, (0, (terminalSize.1 - 9) as u16), (terminalSize.0, 8), true, project_words()));
            assert(placed(m2, m3, "Files"@, (0, 1), (30, (terminalSize.1 - 9) as u16), true, project_words()));
            assert(code_tabs_checked(*old(self), m3, m4, terminalSize));
        }
    }

    /// Draws the tab bar: every tab's label (see `tab_labels`), marked while the command
    /// prompt is open on the tabs.
    pub fn RenderFileBlock(&mut self, app: &mut App)
        requires
            old(app).wf(),
            has_room(*old(app), "Tabs"@, 1),
            old(self).codeTabs.tabFileNames@.len() < u64::MAX,
            span_size(
                tab_bar(
                    tab_labels(
                        lines_view(old(self).codeTabs.tabFileNames@),
                        old(self).codeTabs.currentTab as int,
                        old(self).appState == AppState::CommandPrompt && old(self).tabState == TabState::Tabs,
                    ),
                    old(self).renderMode,
                ),
            ) <= usize::MAX,
        ensures
            *final(self) == *old(self),
            changed_only(*old(app), *final(app), seq!["Tabs"@]),
            shows(
                final(app).windows@[old(app).index_of("Tabs"@)],
                seq![
                    tab_bar(
                        tab_labels(
                            lines_view(old(self).codeTabs.tabFileNames@),
                            old(self).codeTabs.currentTab as int,
                            old(self).appState == AppState::CommandPrompt && old(self).tabState == TabState::Tabs,
                        ),
                        old(self).renderMode,
                    ),
                ],
            ),
            final(app).windows@[old(app).index_of("Tabs"@)].color == old(app).windows@[old(app).index_of("Tabs"@)].color,
    {
        let onTabs = self.appState == AppState::CommandPrompt && self.tabState == TabState::Tabs;
        let names = self.codeTabs.GetColoredNames(onTabs);
        let ghost nv = names@;
        let line = colored_of(names, self.renderMode);
        let ghost lv = line@;
        let tabText = vec![Span::FromTokens(line)];
        proof {
            let labels = tab_labels(lines_view(self.codeTabs.tabFileNames@), self.codeTabs.currentTab as int, onTabs);
            assert(nv.map_values(|s: StyledText| styled_view(s)) == labels);
            assert(lv.map_values(|c: Colored| c@) =~= tab_bar(labels, self.renderMode)) by {
                assert forall|i: int| 0 <= i < lv.len() implies lv.map_values(|c: Colored| c@)[i] == tab_bar(labels, self.renderMode)[i] by {
                    assert(nv.map_values(|s: StyledText| styled_view(s))[i] == labels[i]);
                }
            }
            assert(spans_view(tabText@) =~= seq![tab_bar(labels, self.renderMode)]);
        }
        let ghost i = app.index_of("Tabs"@);
        let window = app.GetWindowReferenceMut(string_of_str("Tabs"));
        show_lines(window, tabText);
        proof {
            assert forall|k: int| 0 <= k < app.windows@.len() implies #[trigger] app.windows@[k].wf() by {
                if k != i {
                    assert(app.windows@[k] == old(app).windows@[k]);
                }
            }
            let ns = seq!["Tabs"@];
            assert forall|k: int|
                0 <= k < app.windows@.len() && (forall|j: int| 0 <= j < ns.len() ==> old(app).index_of(#[trigger] ns[j]) != k)
                    implies #[trigger] app.windows@[k] == old(app).windows@[k] by {
                assert(old(app).index_of(ns[0]) != k);
            }
            assert forall|j: int| 0 <= j < ns.len() implies same_frame(
                old(app).windows@[old(app).index_of(#[trigger] ns[j])],
                app.windows@[old(app).index_of(ns[j])],
            ) by {}
        }
    }

    /// Draws the error bar: works out the completion (see `UpdateRenderErrorBar`), then
    /// shows it and the debug line (see `error_bar_text`).
    pub fn RenderErrorBar(&mut self, app: &mut App)
        requires
            completion_ready(*old(self)),
            old(app).wf(),
            has_room(*old(app), "ErrorBar"@, 2),
            old(self).debugInfo@.len() < usize::MAX - 10,
            forall|i: int| 0 <= i < old(self).codeTabs.tabs@.len() ==> forall|j: int| 0 <= j < (#[trigger] old(self).codeTabs.tabs@[i]).outlineKeywords@.len()
                ==> (#[trigger] old(self).codeTabs.tabs@[i].outlineKeywords@[j]).keyword@.len() < usize::MAX - 10,
            old(self).codeTabs.tabs@.len() > 0 && cursor_tokens(last_tab(*old(self))).len() > 0 ==> cursor_tokens(last_tab(*old(self)))[0].len() < usize::MAX - 10,
            old(self).suggested@.len() < usize::MAX - 10,
        ensures
            completed(*old(self), *final(self)),
            changed_only(*old(app), *final(app), seq!["ErrorBar"@]),
            shows(final(app).windows@[old(app).index_of("ErrorBar"@)], error_bar_text(*final(self))),
            final(app).windows@[old(app).index_of("ErrorBar"@)].color == old(app).windows@[old(app).index_of("ErrorBar"@)].color,
    {
        self.UpdateRenderErrorBar();
        proof {
            if old(self).codeTabs.tabs@.len() > 0 {
                let tab = last_tab(*old(self));
                let toks = cursor_tokens(tab);
                if toks.len() > 0 {
                    let cs = crate::completion::inner_scope(tab, tab.scopeJumps@[tab.cursor.0 as int]@, toks.drop_first()).unwrap();
                    let names = names_of(scoped_keywords(tab.outlineKeywords@, cs));
                    lemma_suggestion_from(toks[0], names);
                    match completion_of(tab) {
                        Some(c) => {
                            if c.len() > 0 {
                                let j = choose|j: int| 0 <= j < names.len() && names[j] == c;
                                crate::completion::lemma_names_from(tab.outlineKeywords@, cs, j);
                                let k = choose|k: int| 0 <= k < tab.outlineKeywords@.len() && names[j] == tab.outlineKeywords@[k].keyword@;
                                assert(old(self).codeTabs.tabs@[old(self).lastTab as int] == tab);
                                assert(tab.outlineKeywords@[k].keyword@.len() < usize::MAX - 10);
                            }
                        },
                        None => {},
                    }
                }
            }
            assert(self.suggested@.len() < usize::MAX - 10);
        }
        let mode = self.renderMode;
        let sug = vec![ColorType::Italic, self.colorMode.colorBindings.suggestion];
        let err = vec![ColorType::Bold, self.colorMode.colorBindings.errorCol];
        proof {
            assert(sug@ =~= seq![ColorType::Italic, self.colorMode.colorBindings.suggestion]);
            assert(err@ =~= seq![ColorType::Bold, self.colorMode.colorBindings.errorCol]);
        }
        let t1 = concat(&string_of_str(": "), &self.suggested);
        let t2 = concat(&string_of_str("Debug: "), &self.debugInfo);
        let c1 = styled_str(t1.as_str(), sug, mode);
        let c2 = styled_str(t2.as_str(), err, mode);
        let line1 = vec![c1];
        let line2 = vec![c2];
        proof {
            let t = error_bar_text(*self);
            assert(line1@.map_values(|c: Colored| c@) =~= t[0]);
            assert(line2@.map_values(|c: Colored| c@) =~= t[1]);
        }
        let ghost v1 = line1@;
        let ghost v2 = line2@;
        let lines = vec![line1, line2];
        proof {
            assert(lines@[0]@ == v1 && lines@[1]@ == v2);
        }
        let errorText = spans_of(lines);
        proof {
            let t = error_bar_text(*self);
            assert(spans_view(errorText@) =~= t);
            reveal_strlit(": ");
            reveal_strlit("Debug: ");
            assert forall|i: int| 0 <= i < errorText@.len() implies span_size(#[trigger] errorText@[i]@) <= usize::MAX by {
                let cs = t[i];
                if i == 0 {
                    lemma_styled_text(": "@ + self.suggested@, seq![ColorType::Italic, self.colorMode.colorBindings.suggestion], mode);
                    lemma_span_bound(cs, (2 + self.suggested@.len()) as int);
                } else {
                    lemma_styled_text("Debug: "@ + self.debugInfo@, seq![ColorType::Bold, self.colorMode.colorBindings.errorCol], mode);
                    lemma_span_bound(cs, (7 + self.debugInfo@.len()) as int);
                }
            }
        }
        let ghost i = app.index_of("ErrorBar"@);
        let window = app.GetWindowReferenceMut(string_of_str("ErrorBar"));
        show_lines(window, errorText);
        proof {
            assert forall|k: int| 0 <= k < app.windows@.len() implies #[trigger] app.windows@[k].wf() by {
                if k != i {
                    assert(app.windows@[k] == old(app).windows@[k]);
                }
            }
            let ns = seq!["ErrorBar"@];
            assert forall|k: int|
                0 <= k < app.windows@.len() && (forall|j: int| 0 <= j < ns.len() ==> old(app).index_of(#[trigger] ns[j]) != k)
                    implies #[trigger] app.windows@[k] == old(app).windows@[k] by {
                assert(old(app).index_of(ns[0]) != k);
            }
            assert forall|j: int| 0 <= j < ns.len() implies same_frame(
                old(app).windows@[old(app).index_of(#[trigger] ns[j])],
                app.windows@[old(app).index_of(ns[j])],
            ) by {}
        }
    }

    /// Draws the menu: the settings page, or the welcome text when the welcome window is
    /// still empty.
    pub fn RenderMenu(&mut self, app: &mut App)
        requires
            old(app).wf(),
            old(self).menuState == MenuState::Settings ==> has_room(*old(app), "ColorSetting"@, 2)
                && has_room(*old(app), "KeybindSetting"@, 2),
            old(self).menuState == MenuState::Welcome ==> has_room(*old(app), "Welcome"@, 12),
        ensures
            *final(self) == *old(self),
            old(self).menuState == MenuState::Settings ==> {
                &&& changed_only(*old(app), *final(app), seq!["ColorSetting"@, "KeybindSetting"@])
                &&& boxed(
                    *old(app),
                    *final(app),
                    "ColorSetting"@,
                    old(self).currentMenuSettingBox == 0,
                    old(self).renderMode,
                    color_setting_text(old(self).colorMode.colorType, old(self).renderMode),
                )
                &&& boxed(
                    *old(app),
                    *final(app),
                    "KeybindSetting"@,
                    old(self).currentMenuSettingBox == 1,
                    old(self).renderMode,
                    keybind_setting_text(old(self).preferredCommandKeybind, old(self).renderMode),
                )
            },
            old(self).menuState == MenuState::Welcome ==> {
                let i = old(app).index_of("Welcome"@);
                if old(app).windows@[i].lines@.len() == 0 {
                    &&& changed_only(*old(app), *final(app), seq!["Welcome"@])
                    &&& shows(final(app).windows@[i], welcome_text(old(self).renderMode))
                    &&& final(app).windows@[i].color == old(app).windows@[i].color
                } else {
                    *final(app) == *old(app)
                }
            },
    {
        match self.menuState {
            MenuState::Settings => {
                self.RenderSettings(app);
            },
            MenuState::Welcome => {
                if app.GetWindowReference(string_of_str("Welcome")).IsEmpty() {
                    let ghost i = app.index_of("Welcome"@);
                    let lines = self.WelcomeText();
                    proof {
                        assert(welcome_text(self.renderMode).len() == 12);
                        assert(spans_view(lines@).len() == lines@.len());
                    }
                    let window = app.GetWindowReferenceMut(string_of_str("Welcome"));
                    show_lines(window, lines);
                    proof {
                        assert forall|k: int| 0 <= k < app.windows@.len() implies #[trigger] app.windows@[k].wf() by {
                            if k != i {
                                assert(app.windows@[k] == old(app).windows@[k]);
                            }
                        }
                        let ns = seq!["Welcome"@];
                        assert forall|k: int|
                            0 <= k < app.windows@.len() && (forall|j: int| 0 <= j < ns.len() ==> old(app).index_of(#[trigger] ns[j]) != k)
                                implies #[trigger] app.windows@[k] == old(app).windows@[k] by {
                            assert(old(app).index_of(ns[0]) != k);
                        }
                        assert forall|j: int| 0 <= j < ns.len() implies same_frame(
                            old(app).windows@[old(app).index_of(#[trigger] ns[j])],
                            app.windows@[old(app).index_of(ns[j])],
                        ) by {}
                    }
                }
            },
        }
    }

    /// Draws the settings page: the color support box and the shortcut modifier box, each
    /// showing its options with the chosen one highlighted, and the selected box framed in
    /// bright blue.
    pub fn RenderSettings(&mut self, app: &mut App)
        requires
            old(app).wf(),
            has_room(*old(app), "ColorSetting"@, 2),
            has_room(*old(app), "KeybindSetting"@, 2),
        ensures
            *final(self) == *old(self),
            changed_only(*old(app), *final(app), seq!["ColorSetting"@, "KeybindSetting"@]),
            boxed(
                *old(app),
                *final(app),
                "ColorSetting"@,
                old(self).currentMenuSettingBox == 0,
                old(self).renderMode,
                color_setting_text(old(self).colorMode.colorType, old(self).renderMode),
            ),
            boxed(
                *old(app),
                *final(app),
                "KeybindSetting"@,
                old(self).currentMenuSettingBox == 1,
                old(self).renderMode,
                keybind_setting_text(old(self).preferredCommandKeybind, old(self).renderMode),
            ),
    {
        let mode = self.renderMode;
        let ct = self.colorMode.colorType;
        let line1 = vec![
            white_str("Color Mode: [", mode),
            choice_str("Basic", ct == ColorTypes::Basic, mode),
            white_str("]", mode),
            white_str(" [", mode),
            choice_str("8-bit", ct == ColorTypes::Partial, mode),
            white_str("]", mode),
            white_str(" [", mode),
            choice_str("24-bit", ct == ColorTypes::True, mode),
            white_str("]", mode),
        ];
        let note = vec![ColorType::White, ColorType::Dim, ColorType::Italic];
        proof {
            assert(note@ =~= seq![ColorType::White, ColorType::Dim, ColorType::Italic]);
        }
        let line2 = vec![
            styled_str(
                " * Not all terminals accept all color modes. If the colors are messed up, try lowering this",
                note,
                mode,
            ),
        ];
        proof {
            let t = color_setting_text(ct, mode);
            assert(line1@.map_values(|c: Colored| c@) =~= t[0]);
            assert(line2@.map_values(|c: Colored| c@) =~= t[1]);
        }
        let ghost v1 = line1@;
        let ghost v2 = line2@;
        let lines = vec![line1, line2];
        proof {
            assert(lines@[0]@ == v1 && lines@[1]@ == v2);
        }
        let settingsText = spans_of(lines);
        proof {
            let t = color_setting_text(ct, mode);
            assert(spans_view(settingsText@) =~= t);
            reveal_strlit("Color Mode: [");
            reveal_strlit("Basic");
            reveal_strlit("]");
            reveal_strlit(" [");
            reveal_strlit("8-bit");
            reveal_strlit("24-bit");
            reveal_strlit(" * Not all terminals accept all color modes. If the colors are messed up, try lowering this");
            assert forall|i: int| 0 <= i < settingsText@.len() implies span_size(#[trigger] settingsText@[i]@) <= usize::MAX by {
                let cs = t[i];
                assert forall|k: int| 0 <= k < cs.len() implies (#[trigger] cs[k]).0.len() <= 100 by {
                    if i == 0 {
                        lemma_styled_text("Color Mode: ["@, seq![ColorType::BrightWhite], mode);
                        lemma_styled_text("Basic"@, seq![ColorType::BrightWhite], mode);
                        lemma_styled_text("Basic"@, seq![ColorType::Yellow, ColorType::Bold, ColorType::Underline], mode);
                        lemma_styled_text("]"@, seq![ColorType::BrightWhite], mode);
                        lemma_styled_text(" ["@, seq![ColorType::BrightWhite], mode);
                        lemma_styled_text("8-bit"@, seq![ColorType::BrightWhite], mode);
                        lemma_styled_text("8-bit"@, seq![ColorType::Yellow, ColorType::Bold, ColorType::Underline], mode);
                        lemma_styled_text("24-bit"@, seq![ColorType::BrightWhite], mode);
                        lemma_styled_text("24-bit"@, seq![ColorType::Yellow, ColorType::Bold, ColorType::Underline], mode);
                    } else {
                        lemma_styled_text(
                            " * Not all terminals accept all color modes. If the colors are messed up, try lowering this"@,
                            seq![ColorType::White, ColorType::Dim, ColorType::Italic],
                            mode,
                        );
                    }
                }
                lemma_span_bound(cs, 100);
            }
        }
        let ghost a0 = *app;
        update_box(app, string_of_str("ColorSetting"), self.currentMenuSettingBox == 0, mode, settingsText);
        let ghost a1 = *app;

        let kb = self.preferredCommandKeybind;
        let line1 = vec![
            white_str("Preferred Modifier Key: [", mode),
            choice_str("Command", kb == KeyModifiers::Command, mode),
            white_str("]", mode),
            white_str(" [", mode),
            choice_str("Control", kb == KeyModifiers::Control, mode),
            white_str("]", mode),
        ];
        let note = vec![ColorType::BrightWhite, ColorType::Dim, ColorType::Italic];
        proof {
            assert(note@ =~= seq![ColorType::BrightWhite, ColorType::Dim, ColorType::Italic]);
        }
        let line2 = vec![styled_str(" * The preferred modifier key for things like ctrl/cmd 'c'", note, mode)];
        proof {
            let t = keybind_setting_text(kb, mode);
            assert(line1@.map_values(|c: Colored| c@) =~= t[0]);
            assert(line2@.map_values(|c: Colored| c@) =~= t[1]);
        }
        let ghost v1 = line1@;
        let ghost v2 = line2@;
        let lines = vec![line1, line2];
        proof {
            assert(lines@[0]@ == v1 && lines@[1]@ == v2);
        }
        let keyText = spans_of(lines);
        proof {
            let t = keybind_setting_text(kb, mode);
            assert(spans_view(keyText@) =~= t);
            reveal_strlit("Preferred Modifier Key: [");
            reveal_strlit("Command");
            reveal_strlit("Control");
            reveal_strlit("]");
            reveal_strlit(" [");
            reveal_strlit(" * The preferred modifier key for things like ctrl/cmd 'c'");
            assert forall|i: int| 0 <= i < keyText@.len() implies span_size(#[trigger] keyText@[i]@) <= usize::MAX by {
                let cs = t[i];
                assert forall|k: int| 0 <= k < cs.len() implies (#[trigger] cs[k]).0.len() <= 100 by {
                    if i == 0 {
                        lemma_styled_text("Preferred Modifier Key: ["@, seq![ColorType::BrightWhite], mode);
                        lemma_styled_text("Command"@, seq![ColorType::BrightWhite], mode);
                        lemma_styled_text("Command"@, seq![ColorType::Yellow, ColorType::Bold, ColorType::Underline], mode);
                        lemma_styled_text("Control"@, seq![ColorType::BrightWhite], mode);
                        lemma_styled_text("Control"@, seq![ColorType::Yellow, ColorType::Bold, ColorType::Underline], mode);
                        lemma_styled_text("]"@, seq![ColorType::BrightWhite], mode);
                        lemma_styled_text(" ["@, seq![ColorType::BrightWhite], mode);
                    } else {
                        lemma_styled_text(
                            " * The preferred modifier key for things like ctrl/cmd 'c'"@,
                            seq![ColorType::BrightWhite, ColorType::Dim, ColorType::Italic],
                            mode,
                        );
                    }
                }
                lemma_span_bound(cs, 100);
            }
            assert(a1.names == a0.names);
            let i1 = a0.index_of("ColorSetting"@);
            let i2 = a0.index_of("KeybindSetting"@);
            assert(a0.names@[i1]@ == "ColorSetting"@);
            assert(a0.names@[i2]@ == "KeybindSetting"@);
            reveal_strlit("ColorSetting");
            reveal_strlit("KeybindSetting");
            assert("ColorSetting"@.len() != "KeybindSetting"@.len());
            assert(i1 != i2);
            assert(a1.windows@[i2] == a0.windows@[i2]);
        }
        update_box(app, string_of_str("KeybindSetting"), self.currentMenuSettingBox == 1, mode, keyText);
        proof {
            let i1 = a0.index_of("ColorSetting"@);
            let i2 = a0.index_of("KeybindSetting"@);
            let ns = seq!["ColorSetting"@, "KeybindSetting"@];
            assert(app.windows@[i1] == a1.windows@[i1]);
            assert forall|k: int|
                0 <= k < app.windows@.len() && (forall|j: int| 0 <= j < ns.len() ==> a0.index_of(#[trigger] ns[j]) != k)
                    implies #[trigger] app.windows@[k] == a0.windows@[k] by {
                assert(a0.index_of(ns[0]) != k);
                assert(a0.index_of(ns[1]) != k);
            }
            assert forall|j: int| 0 <= j < ns.len() implies same_frame(
                a0.windows@[a0.index_of(#[trigger] ns[j])],
                app.windows@[a0.index_of(ns[j])],
            ) by {
                if j == 0 {
                } else {
                }
            }
        }
    }

    /// Places the command line along the bottom row of a terminal of `terminalSize`.
    pub fn CheckWindows(&mut self, app: &mut App, terminalSize: (u16, u16))
        requires
            old(app).wf(),
            terminalSize.1 >= 1,
        ensures
            placed(*old(app), *final(app), "CommandLine"@, (0, (terminalSize.1 - 1) as u16), (terminalSize.0, 1), false, seq![]),
            final(app).has("CommandLine"@),
            *final(self) == *old(self),
    {
        let keywords: Vec<String> = Vec::new();
        proof {
            assert(keywords@.map_values(|s: String| s@) =~= Seq::<Seq<char>>::empty());
        }
        place_window(app, string_of_str("CommandLine"), (0, terminalSize.1 - 1), (terminalSize.0, 1), false, keywords);
    }
}

} // verus!
