//! The ESC command bar: its commands, the case-insensitive filter, the
//! pickers' keyboard selection, and the order in which ESC peels UI layers.

use vstd::prelude::*;

use crate::config::BUILTIN_THEME;
use crate::strings::{
    string_views,
    chars_eq, concat, contains, contains_chars, lowercase, str_eq, to_lowercase, trim, trimmed,
};
use crate::text::chars_of;

verus! {

/// Root command-bar entries.
#[derive(Debug, Clone, Copy, PartialEq, Eq, Structural)]
pub enum Command {
    Theme,
    Font,
    Compiler,
    Split,
    Dimming,
    Typewriter,
    Glow,
    Spelling,
    Help,
}

/// The label each command shows in the bar.
pub open spec fn command_label(c: Command) -> Seq<char> {
    match c {
        Command::Theme => "theme — switch color theme"@,
        Command::Font => "font — editor typeface"@,
        Command::Compiler => "latex engine — choose the compiler"@,
        Command::Split => "split width — editor/preview ratio"@,
        Command::Dimming => "focus dimming — toggle paragraph dimming"@,
        Command::Typewriter => "typewriter scroll — center the active paragraph"@,
        Command::Glow => "paragraph glow — glow the active paragraph"@,
        Command::Spelling => "spell checking — toggle local corrections"@,
        Command::Help => "help — keybindings (?)"@,
    }
}

/// Every root command, in bar order.
pub open spec fn all_commands() -> Seq<Command> {
    seq![
        Command::Theme,
        Command::Font,
        Command::Compiler,
        Command::Split,
        Command::Dimming,
        Command::Typewriter,
        Command::Glow,
        Command::Spelling,
        Command::Help,
    ]
}

impl Command {
    /// Every root command, in bar order.
    pub fn all() -> (r: Vec<Command>)
        ensures
            r@ == all_commands(),
    {
        let r = vec![
            Command::Theme,
            Command::Font,
            Command::Compiler,
            Command::Split,
            Command::Dimming,
            Command::Typewriter,
            Command::Glow,
            Command::Spelling,
            Command::Help,
        ];
        assert(r@ =~= all_commands());
        r
    }

    /// The label the command shows in the bar.
    pub fn label(self) -> (r: &'static str)
        ensures
            r@ == command_label(self),
    {
        match self {
            Command::Theme => "theme — switch color theme",
            Command::Font => "font — editor typeface",
            Command::Compiler => "latex engine — choose the compiler",
            Command::Split => "split width — editor/preview ratio",
            Command::Dimming => "focus dimming — toggle paragraph dimming",
            Command::Typewriter => "typewriter scroll — center the active paragraph",
            Command::Glow => "paragraph glow — glow the active paragraph",
            Command::Spelling => "spell checking — toggle local corrections",
            Command::Help => "help — keybindings (?)",
        }
    }
}

/// The command bar's filter rule: the option contains the (trimmed) input,
/// ignoring case.
pub open spec fn option_matches(option: Seq<char>, input: Seq<char>) -> bool {
    contains(lowercase(option), lowercase(trimmed(input)))
}

/// Case-insensitive substring match, the command bar's filter rule.
pub fn matches(option: &str, input: &str) -> (r: bool)
    ensures
        r == option_matches(option@, input@),
{
    let o = to_lowercase(option);
    let t = trim(input);
    let i = to_lowercase(t.as_str());
    let oc = chars_of(o.as_str());
    let ic = chars_of(i.as_str());
    contains_chars(oc.as_slice(), ic.as_slice())
}

/// The elements of `s` that satisfy `keep`, in order.
pub open spec fn kept<A>(s: Seq<A>, keep: spec_fn(A) -> bool) -> Seq<A>
    decreases s.len(),
{
    if s.len() == 0 {
        Seq::empty()
    } else {
        let rest = kept(s.drop_last(), keep);
        if keep(s.last()) {
            rest.push(s.last())
        } else {
            rest
        }
    }
}

/// Root commands matching the filter input.
pub fn filtered_commands(input: &str) -> (r: Vec<Command>)
    ensures
        r@ == kept(all_commands(), |c: Command| option_matches(command_label(c), input@)),
{
    let all = Command::all();
    let ghost keep = |c: Command| option_matches(command_label(c), input@);
    let mut out: Vec<Command> = Vec::new();
    let mut i: usize = 0;
    while i < all.len()
        invariant
            i <= all@.len(),
            all@ == all_commands(),
            keep == (|c: Command| option_matches(command_label(c), input@)),
            out@ == kept(all@.take(i as int), keep),
        decreases all@.len() - i,
    {
        let c = all[i];
        let ghost prefix = all@.take(i + 1);
        assert(prefix.drop_last() =~= all@.take(i as int));
        if matches(c.label(), input) {
            out.push(c);
        }
        i = i + 1;
    }
    assert(all@.take(all@.len() as int) =~= all@);
    out
}

/// The options that match the filter input, in order.
pub fn filter_options(options: &[String], input: &str) -> (r: Vec<String>)
    ensures
        string_views(r@) == kept(string_views(options@), |o: Seq<char>| option_matches(o, input@)),
{
    let ghost keep = |o: Seq<char>| option_matches(o, input@);
    let ghost views = string_views(options@);
    let mut out: Vec<String> = Vec::new();
    let mut i: usize = 0;
    while i < options.len()
        invariant
            i <= options@.len(),
            views == string_views(options@),
            keep == (|o: Seq<char>| option_matches(o, input@)),
            string_views(out@) == kept(views.take(i as int), keep),
        decreases options@.len() - i,
    {
        let ghost prefix = views.take(i + 1);
        assert(prefix.drop_last() =~= views.take(i as int));
        let ghost before = out@;
        if matches(options[i].as_str(), input) {
            out.push(options[i].clone());
            assert(string_views(out@) =~= string_views(before).push(options@[i as int]@));
        }
        i = i + 1;
    }
    assert(views.take(views.len() as int) =~= views);
    out
}

/// Theme names matching the filter input (`themes` is the list the theme
/// switcher offers).
pub fn theme_options(themes: &[String], input: &str) -> (r: Vec<String>)
    ensures
        string_views(r@) == kept(string_views(themes@), |o: Seq<char>| option_matches(o, input@)),
{
    filter_options(themes, input)
}

/// The LaTeX compilers the bar offers.
pub open spec fn compilers() -> Seq<Seq<char>> {
    seq!["pdflatex"@, "xelatex"@]
}

/// LaTeX compilers matching the filter input.
pub fn compiler_options(input: &str) -> (r: Vec<String>)
    ensures
        string_views(r@) == kept(compilers(), |o: Seq<char>| option_matches(o, input@)),
{
    let all = vec![String::from_str("pdflatex"), String::from_str("xelatex")];
    assert(string_views(all@) =~= compilers());
    filter_options(all.as_slice(), input)
}

/// Font families matching the filter input, with the built-in default first
/// (`fonts` is the list of installed families).
pub fn font_options(fonts: &[String], input: &str) -> (r: Vec<String>)
    ensures
        string_views(r@) == kept(
            seq![BUILTIN_THEME@] + string_views(fonts@),
            |o: Seq<char>| option_matches(o, input@),
        ),
{
    let mut all: Vec<String> = Vec::new();
    all.push(String::from_str(BUILTIN_THEME));
    let mut i: usize = 0;
    while i < fonts.len()
        invariant
            i <= fonts@.len(),
            string_views(all@) == seq![BUILTIN_THEME@] + string_views(fonts@).take(i as int),
        decreases fonts@.len() - i,
    {
        let ghost before = all@;
        all.push(fonts[i].clone());
        assert(string_views(all@) =~= string_views(before).push(fonts@[i as int]@));
        i = i + 1;
        assert(string_views(all@) =~= seq![BUILTIN_THEME@] + string_views(fonts@).take(i as int));
    }
    assert(string_views(fonts@).take(fonts@.len() as int) =~= string_views(fonts@));
    filter_options(all.as_slice(), input)
}

// ---------------------------------------------------------------------------
// Pickers
// ---------------------------------------------------------------------------

/// One command-bar level: what's typed in the filter input and which row
/// the arrow keys have selected (an index into the *filtered* options).
#[derive(Debug)]
pub struct Picker {
    pub input: String,
    pub selected: usize,
}

impl Default for Picker {
    fn default() -> (p: Self)
        ensures
            p.input@ == Seq::<char>::empty(),
            p.selected == 0,
    {
        Picker { input: String::new(), selected: 0 }
    }
}

/// Moving the selection one row through `len` options, wrapping at both
/// ends.
pub open spec fn wrapped_step(selected: int, len: int, forward: bool) -> int {
    if len <= 0 {
        selected
    } else if forward {
        (selected + 1) % len
    } else {
        (selected - 1) % len
    }
}

/// One row forward or back through `len` options, wrapping; unchanged when
/// there are none.
pub fn step_selection(selected: usize, len: usize, forward: bool) -> (r: usize)
    ensures
        r == wrapped_step(selected as int, len as int, forward),
        len > 0 ==> r < len,
{
    if len == 0 {
        return selected;
    }
    let cur = selected % len;
    proof {
        let q = selected as int / len as int;
        vstd::arithmetic::div_mod::lemma_fundamental_div_mod(selected as int, len as int);
        assert(selected as int == q * len + cur) by (nonlinear_arith)
            requires
                selected as int == len * q + cur,
        ;
        if forward {
            if cur + 1 == len {
                assert(selected + 1 == (q + 1) * len + 0) by (nonlinear_arith)
                    requires
                        selected as int == q * len + cur,
                        cur + 1 == len,
                ;
                vstd::arithmetic::div_mod::lemma_fundamental_div_mod_converse(
                    selected + 1,
                    len as int,
                    q + 1,
                    0,
                );
            } else {
                vstd::arithmetic::div_mod::lemma_fundamental_div_mod_converse(
                    selected + 1,
                    len as int,
                    q,
                    cur + 1,
                );
            }
        } else {
            if cur == 0 {
                assert(selected - 1 == (q - 1) * len + (len - 1)) by (nonlinear_arith)
                    requires
                        selected as int == q * len + cur,
                        cur == 0,
                ;
                vstd::arithmetic::div_mod::lemma_fundamental_div_mod_converse(
                    selected - 1,
                    len as int,
                    q - 1,
                    len - 1,
                );
            } else {
                vstd::arithmetic::div_mod::lemma_fundamental_div_mod_converse(
                    selected - 1,
                    len as int,
                    q,
                    cur - 1,
                );
            }
        }
    }
    if forward {
        if cur + 1 == len {
            0
        } else {
            cur + 1
        }
    } else {
        if cur == 0 {
            len - 1
        } else {
            cur - 1
        }
    }
}

impl Picker {
    /// Move the selection through `len` filtered options, wrapping.
    pub fn step(&mut self, len: usize, forward: bool)
        ensures
            final(self).selected == wrapped_step(old(self).selected as int, len as int, forward),
            final(self).input == old(self).input,
    {
        self.selected = step_selection(self.selected, len, forward);
    }

    /// New filter text: the selection goes back to the first row.
    pub fn set_input(&mut self, input: String)
        ensures
            final(self).input == input,
            final(self).selected == 0,
    {
        self.input = input;
        self.selected = 0;
    }
}

/// The ESC menu: the root lists commands; most drill into a sub-bar (theme,
/// font and compiler pickers) or a small panel (split slider, keybind help).
#[derive(Debug)]
pub enum Menu {
    Commands(Picker),
    Theme(Picker),
    Compiler(Picker),
    Font(Picker),
    Split,
    Help,
}

/// What typing `input` into the root bar leads to: `"?"` (ignoring
/// surrounding whitespace) jumps to the keybinding help.
pub fn opens_help(input: &str) -> (r: bool)
    ensures
        r == (trimmed(input@) == "?"@),
{
    let t = trim(input);
    str_eq(t.as_str(), "?")
}

// ---------------------------------------------------------------------------
// ESC
// ---------------------------------------------------------------------------

/// Which command-bar level is open, if any.
#[derive(Debug, Clone, Copy, PartialEq, Eq, Structural)]
pub enum MenuLevel {
    Closed,
    Commands,
    Theme,
    Font,
    Other,
}

/// The UI layers ESC can close, as open/closed flags.
#[derive(Debug, Clone, Copy, PartialEq, Eq, Structural)]
pub struct Layers {
    pub confirm: bool,
    pub selection_menu: bool,
    pub spell_correction: bool,
    pub open_picker: bool,
    pub sidebar_context: bool,
    pub tex_failure: bool,
    pub search: bool,
    pub fullscreen: bool,
    pub menu: MenuLevel,
}

/// What one ESC press does.
#[derive(Debug, Clone, Copy, PartialEq, Eq, Structural)]
pub enum EscAction {
    CloseConfirm,
    CloseSelectionMenu,
    CloseSpellCorrection,
    ClosePicker,
    CloseSidebarContext,
    DismissCompileError,
    CloseSearch,
    LeaveFullscreen,
    /// Close the root bar and return to the editor.
    CloseCommandBar,
    /// Back from a sub-view to the root bar, reverting a live theme or font
    /// preview.
    BackToCommands { revert_theme: bool, revert_font: bool },
    /// Nothing is layered: open the command bar.
    OpenCommandBar,
}

/// ESC peels the topmost open layer, in a fixed order: dialog, selection
/// menu, spell correction, file picker, sidebar context, compile error,
/// find bar, fullscreen, command bar; with nothing open it opens the bar.
pub open spec fn esc_peel(l: Layers) -> EscAction {
    if l.confirm {
        EscAction::CloseConfirm
    } else if l.selection_menu {
        EscAction::CloseSelectionMenu
    } else if l.spell_correction {
        EscAction::CloseSpellCorrection
    } else if l.open_picker {
        EscAction::ClosePicker
    } else if l.sidebar_context {
        EscAction::CloseSidebarContext
    } else if l.tex_failure {
        EscAction::DismissCompileError
    } else if l.search {
        EscAction::CloseSearch
    } else if l.fullscreen {
        EscAction::LeaveFullscreen
    } else {
        match l.menu {
            MenuLevel::Commands => EscAction::CloseCommandBar,
            MenuLevel::Theme => EscAction::BackToCommands { revert_theme: true, revert_font: false },
            MenuLevel::Font => EscAction::BackToCommands { revert_theme: false, revert_font: true },
            MenuLevel::Other => EscAction::BackToCommands { revert_theme: false, revert_font: false },
            MenuLevel::Closed => EscAction::OpenCommandBar,
        }
    }
}

/// What ESC does given the open layers.
pub fn esc_action(l: Layers) -> (r: EscAction)
    ensures
        r == esc_peel(l),
{
    if l.confirm {
        EscAction::CloseConfirm
    } else if l.selection_menu {
        EscAction::CloseSelectionMenu
    } else if l.spell_correction {
        EscAction::CloseSpellCorrection
    } else if l.open_picker {
        EscAction::ClosePicker
    } else if l.sidebar_context {
        EscAction::CloseSidebarContext
    } else if l.tex_failure {
        EscAction::DismissCompileError
    } else if l.search {
        EscAction::CloseSearch
    } else if l.fullscreen {
        EscAction::LeaveFullscreen
    } else {
        match l.menu {
            MenuLevel::Commands => EscAction::CloseCommandBar,
            MenuLevel::Theme => EscAction::BackToCommands { revert_theme: true, revert_font: false },
            MenuLevel::Font => EscAction::BackToCommands { revert_theme: false, revert_font: true },
            MenuLevel::Other => EscAction::BackToCommands { revert_theme: false, revert_font: false },
            MenuLevel::Closed => EscAction::OpenCommandBar,
        }
    }
}

/// ESC always does something: with any layer open it closes exactly the
/// topmost one, and only with nothing open does it open the command bar.
pub proof fn law_esc_opens_bar_only_when_nothing_is_open(l: Layers)
    ensures
        (esc_peel(l) == EscAction::OpenCommandBar) <==> (!l.confirm && !l.selection_menu
            && !l.spell_correction && !l.open_picker && !l.sidebar_context && !l.tex_failure
            && !l.search && !l.fullscreen && l.menu == MenuLevel::Closed),
        l.confirm ==> esc_peel(l) == EscAction::CloseConfirm,
{
}

/// CTRL+F: a second press closes the find bar; it never opens over a modal.
#[derive(Debug, Clone, Copy, PartialEq, Eq, Structural)]
pub enum FindToggle {
    Close,
    Ignore,
    Open,
}

/// What CTRL+F does: close an open find bar, stay out of the way of a
/// modal (command bar, spell correction, selection menu, dialog, file
/// picker), or open the bar.
pub fn find_toggle(search_open: bool, modal_open: bool) -> (r: FindToggle)
    ensures
        r == (if search_open {
            FindToggle::Close
        } else if modal_open {
            FindToggle::Ignore
        } else {
            FindToggle::Open
        }),
{
    if search_open {
        FindToggle::Close
    } else if modal_open {
        FindToggle::Ignore
    } else {
        FindToggle::Open
    }
}

/// The fullscreen pane after toggling `target`: off if it was the
/// fullscreen pane, otherwise `target`.
pub fn toggled_fullscreen(current: Option<usize>, target: usize) -> (r: Option<usize>)
    ensures
        r == (if current == Some(target) {
            None::<usize>
        } else {
            Some(target)
        }),
{
    match current {
        Some(c) => if c == target {
            None
        } else {
            Some(target)
        },
        None => Some(target),
    }
}

/// Toggling the same pane twice gives back the fullscreen state it started from
/// when it started on or off that pane.
pub proof fn law_fullscreen_toggle_twice(target: usize, on: bool)
    ensures
        ({
            let start = if on { Some(target) } else { None::<usize> };
            let once = if start == Some(target) { None::<usize> } else { Some(target) };
            let twice = if once == Some(target) { None::<usize> } else { Some(target) };
            twice == start
        }),
{
}


// ---------------------------------------------------------------------------
// Running a root command
// ---------------------------------------------------------------------------

/// The on/off settings the root commands flip.
#[derive(Debug, Clone, Copy, PartialEq, Eq, Structural)]
pub struct Toggles {
    pub focus_dimming: bool,
    pub typewriter_scroll: bool,
    pub paragraph_glow: bool,
    pub spell_check: bool,
}

/// What choosing a root command does.
#[derive(Debug)]
pub enum CommandOutcome {
    /// Drill into this view of the bar.
    Open(Menu),
    /// A setting was flipped and the bar closes: the new settings, the
    /// status line, whether the spelling dictionary must be (re)loaded and
    /// whether typewriter centering should run.
    Toggled { toggles: Toggles, status: String, reload_dictionary: bool, recenter: bool },
}

/// The status line after a toggle: `"<name> on"` or `"<name> off"`.
pub open spec fn toggle_status(name: Seq<char>, on: bool) -> Seq<char> {
    name + if on {
        " on"@
    } else {
        " off"@
    }
}

fn toggled(name: &str, on: bool) -> (r: String)
    ensures
        r@ == toggle_status(name@, on),
{
    concat(
        name,
        if on {
            " on"
        } else {
            " off"
        },
    )
}

/// Choosing `command` with the settings `t`: the pickers open with an empty
/// filter, the split slider and the help open as panels, and the four toggles
/// flip their setting and report it; turning spell checking on or off
/// reloads the dictionary, and toggling typewriter scrolling recenters.
pub fn run_command(command: Command, t: Toggles) -> (r: CommandOutcome)
    ensures
        match command {
            Command::Theme => r matches CommandOutcome::Open(Menu::Theme(p)) && p.input@.len() == 0
                && p.selected == 0,
            Command::Font => r matches CommandOutcome::Open(Menu::Font(p)) && p.input@.len() == 0
                && p.selected == 0,
            Command::Compiler => r matches CommandOutcome::Open(Menu::Compiler(p)) && p.input@.len()
                == 0 && p.selected == 0,
            Command::Split => r matches CommandOutcome::Open(Menu::Split),
            Command::Help => r matches CommandOutcome::Open(Menu::Help),
            Command::Dimming => r matches CommandOutcome::Toggled { toggles, status, reload_dictionary, recenter }
                && toggles == (Toggles { focus_dimming: !t.focus_dimming, ..t })
                && status@ == toggle_status("focus dimming"@, !t.focus_dimming)
                && !reload_dictionary && !recenter,
            Command::Typewriter => r matches CommandOutcome::Toggled { toggles, status, reload_dictionary, recenter }
                && toggles == (Toggles { typewriter_scroll: !t.typewriter_scroll, ..t })
                && status@ == toggle_status("typewriter scroll"@, !t.typewriter_scroll)
                && !reload_dictionary && recenter,
            Command::Glow => r matches CommandOutcome::Toggled { toggles, status, reload_dictionary, recenter }
                && toggles == (Toggles { paragraph_glow: !t.paragraph_glow, ..t })
                && status@ == toggle_status("paragraph glow"@, !t.paragraph_glow)
                && !reload_dictionary && !recenter,
            Command::Spelling => r matches CommandOutcome::Toggled { toggles, status, reload_dictionary, recenter }
                && toggles == (Toggles { spell_check: !t.spell_check, ..t })
                && status@ == toggle_status("spell checking"@, !t.spell_check)
                && reload_dictionary && !recenter,
        },
{
    match command {
        Command::Theme => CommandOutcome::Open(Menu::Theme(Picker::default())),
        Command::Font => CommandOutcome::Open(Menu::Font(Picker::default())),
        Command::Compiler => CommandOutcome::Open(Menu::Compiler(Picker::default())),
        Command::Split => CommandOutcome::Open(Menu::Split),
        Command::Help => CommandOutcome::Open(Menu::Help),
        Command::Dimming => {
            let on = !t.focus_dimming;
            CommandOutcome::Toggled {
                toggles: Toggles { focus_dimming: on, ..t },
                status: toggled("focus dimming", on),
                reload_dictionary: false,
                recenter: false,
            }
        },
        Command::Typewriter => {
            let on = !t.typewriter_scroll;
            CommandOutcome::Toggled {
                toggles: Toggles { typewriter_scroll: on, ..t },
                status: toggled("typewriter scroll", on),
                reload_dictionary: false,
                recenter: true,
            }
        },
        Command::Glow => {
            let on = !t.paragraph_glow;
            CommandOutcome::Toggled {
                toggles: Toggles { paragraph_glow: on, ..t },
                status: toggled("paragraph glow", on),
                reload_dictionary: false,
                recenter: false,
            }
        },
        Command::Spelling => {
            let on = !t.spell_check;
            CommandOutcome::Toggled {
                toggles: Toggles { spell_check: on, ..t },
                status: toggled("spell checking", on),
                reload_dictionary: true,
                recenter: false,
            }
        },
    }
}

/// Running a toggle command twice restores the settings it started from.
pub proof fn law_toggle_twice_restores(command: Command, t: Toggles, t1: Toggles, t2: Toggles)
    requires
        toggles_to(command, t, t1),
        toggles_to(command, t1, t2),
    ensures
        t2 == t,
{
}

/// `command` flips the settings `t` to `u`.
pub open spec fn toggles_to(command: Command, t: Toggles, u: Toggles) -> bool {
    match command {
        Command::Dimming => u == (Toggles { focus_dimming: !t.focus_dimming, ..t }),
        Command::Typewriter => u == (Toggles { typewriter_scroll: !t.typewriter_scroll, ..t }),
        Command::Glow => u == (Toggles { paragraph_glow: !t.paragraph_glow, ..t }),
        Command::Spelling => u == (Toggles { spell_check: !t.spell_check, ..t }),
        _ => false,
    }
}

/// The configuration value for a name chosen in the theme or font picker:
/// the built-in entry is stored as the empty name.
pub fn configured_name(name: String) -> (r: String)
    ensures
        r@ == (if name@ == BUILTIN_THEME@ {
            Seq::<char>::empty()
        } else {
            name@
        }),
{
    if str_eq(name.as_str(), BUILTIN_THEME) {
        String::new()
    } else {
        name
    }
}

/// When the window regains focus the editor takes the keyboard back,
/// unless an overlay owns it or the focused pane is not an editor.
pub fn refocus_editor(overlay_open: bool, focused_is_editor: bool) -> (r: bool)
    ensures
        r == (!overlay_open && focused_is_editor),
{
    !overlay_open && focused_is_editor
}

/// Arrowing down and then up through a list returns to the row that was
/// selected.
pub proof fn law_step_forward_then_back(selected: int, len: int)
    requires
        0 <= selected < len,
    ensures
        wrapped_step(wrapped_step(selected, len, true), len, false) == selected,
        wrapped_step(wrapped_step(selected, len, false), len, true) == selected,
{
    if selected + 1 < len {
        vstd::arithmetic::div_mod::lemma_small_mod((selected + 1) as nat, len as nat);
        vstd::arithmetic::div_mod::lemma_small_mod(selected as nat, len as nat);
    } else {
        vstd::arithmetic::div_mod::lemma_fundamental_div_mod_converse(selected + 1, len, 1, 0);
        vstd::arithmetic::div_mod::lemma_fundamental_div_mod_converse(-1, len, -1, len - 1);
    }
    if selected > 0 {
        vstd::arithmetic::div_mod::lemma_small_mod((selected - 1) as nat, len as nat);
        vstd::arithmetic::div_mod::lemma_small_mod(selected as nat, len as nat);
    } else {
        vstd::arithmetic::div_mod::lemma_fundamental_div_mod_converse(-1, len, -1, len - 1);
        vstd::arithmetic::div_mod::lemma_fundamental_div_mod_converse(len, len, 1, 0);
    }
}

} // verus!
