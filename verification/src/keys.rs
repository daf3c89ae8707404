//! Keyboard shortcuts.

use vstd::prelude::*;

verus! {

/// A shortcut, as the help lists it.
#[derive(Clone, Copy, Debug)]
pub struct Binding {
    pub keys: &'static str,
    pub description_key: &'static str,
}

/// The shortcuts with their descriptions' names in the dictionaries, in the
/// order of the help.
pub open spec fn binding_list() -> Seq<(Seq<char>, Seq<char>)> {
    seq![
        ("Ctrl+R"@, "help_keys_run"@),
        ("Ctrl+Z"@, "help_keys_undo"@),
        ("Ctrl+Y"@, "help_keys_redo"@),
        ("Ctrl+L"@, "help_keys_console"@),
        ("Ctrl+,"@, "help_keys_config"@),
        ("F1"@, "help_keys_help"@),
        ("Esc"@, "help_keys_escape"@),
    ]
}

/// Every shortcut, in the order of the help.
pub fn bindings() -> (r: Vec<Binding>)
    ensures
        r@.map_values(|b: Binding| (b.keys@, b.description_key@)) == binding_list(),
{
    let r = vec![
        Binding { keys: "Ctrl+R", description_key: "help_keys_run" },
        Binding { keys: "Ctrl+Z", description_key: "help_keys_undo" },
        Binding { keys: "Ctrl+Y", description_key: "help_keys_redo" },
        Binding { keys: "Ctrl+L", description_key: "help_keys_console" },
        Binding { keys: "Ctrl+,", description_key: "help_keys_config" },
        Binding { keys: "F1", description_key: "help_keys_help" },
        Binding { keys: "Esc", description_key: "help_keys_escape" },
    ];
    assert(r@.map_values(|b: Binding| (b.keys@, b.description_key@)) =~= binding_list());
    r
}

/// A hint with its shortcut: `Start a nest run  (Ctrl+R)`.
pub fn hint(text: &str, keys: &str) -> (r: String)
    ensures
        r@ == text@ + "  ("@ + keys@ + ")"@,
{
    let mut r = text.to_owned();
    r.append("  (");
    r.append(keys);
    r.append(")");
    r
}

/// Which windows and questions are open.
#[derive(Clone, Copy, PartialEq, Eq, Structural, Debug)]
pub struct Windows {
    pub help: bool,
    pub settings: bool,
    pub console: bool,
    pub recover_question: bool,
    pub reset_question: bool,
    pub remove_question: bool,
    pub unit_question: bool,
}

/// Which keys are listened to.
#[derive(Clone, Copy, PartialEq, Eq, Structural, Debug)]
pub enum Listening {
    /// None: what is typed goes into a field, or answers a question.
    Nothing,
    /// The one that closes the help.
    HelpKey,
    Everything,
}

impl Windows {
    /// Whether something is open that must be answered first.
    pub open spec fn blocked(self) -> bool {
        self.help || self.recover_question || self.reset_question || self.remove_question
            || self.unit_question
    }

    /// Which keys are listened to. A field that is typed into owns them all; so
    /// does an open question, but for the key that closes the help.
    pub fn listening(self, typing: bool) -> (r: Listening)
        ensures
            r == if typing {
                Listening::Nothing
            } else if self.blocked() {
                if self.help {
                    Listening::HelpKey
                } else {
                    Listening::Nothing
                }
            } else {
                Listening::Everything
            },
    {
        if typing {
            Listening::Nothing
        } else if self.help {
            Listening::HelpKey
        } else if self.recover_question || self.reset_question || self.remove_question
            || self.unit_question {
            Listening::Nothing
        } else {
            Listening::Everything
        }
    }
}

/// Which shortcuts were pressed.
#[derive(Clone, Copy, PartialEq, Eq, Structural, Debug)]
pub struct Pressed {
    pub run: bool,
    pub undo: bool,
    pub redo: bool,
    pub console: bool,
    pub config: bool,
    pub help: bool,
}

/// What the shortcuts ask of the job.
#[derive(Clone, Copy, PartialEq, Eq, Structural, Debug)]
pub struct KeyCommands {
    pub stop: bool,
    pub start: bool,
    pub undo: bool,
    pub redo: bool,
}

/// Acts on the keys that were pressed and are listened to. The run key stops a
/// run that is going on, and starts one only where there is something to nest.
pub fn handle(
    windows: &mut Windows,
    pressed: Pressed,
    typing: bool,
    running: bool,
    has_shapes: bool,
) -> (r: KeyCommands)
    ensures
        !typing && !old(windows).blocked() ==> {
            &&& *final(windows) == (Windows {
                console: old(windows).console != pressed.console,
                settings: old(windows).settings != pressed.config,
                help: pressed.help,
                ..*old(windows)
            })
            &&& r == (KeyCommands {
                stop: pressed.run && running,
                start: pressed.run && !running && has_shapes,
                undo: pressed.undo,
                redo: pressed.redo,
            })
        },
        typing || old(windows).blocked() ==> {
            &&& *final(windows) == (Windows {
                help: old(windows).help && !(pressed.help && !typing),
                ..*old(windows)
            })
            &&& r == (KeyCommands { stop: false, start: false, undo: false, redo: false })
        },
{
    match windows.listening(typing) {
        Listening::Nothing => KeyCommands { stop: false, start: false, undo: false, redo: false },
        Listening::HelpKey => {
            if pressed.help {
                windows.help = false;
            }
            KeyCommands { stop: false, start: false, undo: false, redo: false }
        },
        Listening::Everything => {
            if pressed.console {
                windows.console = !windows.console;
            }
            if pressed.config {
                windows.settings = !windows.settings;
            }
            if pressed.help {
                windows.help = true;
            }
            KeyCommands {
                stop: pressed.run && running,
                start: pressed.run && !running && has_shapes,
                undo: pressed.undo,
                redo: pressed.redo,
            }
        },
    }
}

/// While something is typed, or a question is open, no key does anything but
/// close the help that is open. Else a key does what it is for: a run is started
/// where none runs and there is something to nest, and stopped where one does.
pub proof fn law_keys_wait_for_questions(
    windows: &mut Windows,
    pressed: Pressed,
    typing: bool,
    running: bool,
    has_shapes: bool,
    r: KeyCommands,
)
    requires
        call_ensures(handle, (windows, pressed, typing, running, has_shapes), r),
    ensures
        r.stop || r.start || r.undo || r.redo ==> !typing && !old(windows).help && !old(
            windows).recover_question && !old(windows).reset_question && !old(
            windows).remove_question && !old(windows).unit_question,
        !(r.stop && r.start),
        r.start ==> pressed.run && !running && has_shapes,
        r.stop ==> pressed.run && running,
        r.undo ==> pressed.undo,
        r.redo ==> pressed.redo,
        final(windows).recover_question == old(windows).recover_question,
        final(windows).reset_question == old(windows).reset_question,
        final(windows).remove_question == old(windows).remove_question,
        final(windows).unit_question == old(windows).unit_question,
        typing ==> *final(windows) == *old(windows),
        old(windows).help && pressed.help && !typing ==> !final(windows).help,
        old(windows).help && !pressed.help ==> final(windows).help,
        !typing && !old(windows).help && !old(windows).recover_question && !old(
            windows).reset_question && !old(windows).remove_question && !old(
            windows).unit_question ==> {
            &&& r.undo == pressed.undo
            &&& r.redo == pressed.redo
            &&& r.stop == (pressed.run && running)
            &&& r.start == (pressed.run && !running && has_shapes)
            &&& final(windows).help == pressed.help
            &&& final(windows).console == (if pressed.console {
                !old(windows).console
            } else {
                old(windows).console
            })
            &&& final(windows).settings == (if pressed.config {
                !old(windows).settings
            } else {
                old(windows).settings
            })
        },
{
}

/// Keys are listened to as far as nothing stands before them.
pub proof fn law_an_open_help_listens_for_its_key(
    windows: Windows,
    typing: bool,
    r: Listening,
)
    requires
        call_ensures(Windows::listening, (windows, typing), r),
    ensures
        r == Listening::Everything <==> !typing && !windows.help && !windows.recover_question
            && !windows.reset_question && !windows.remove_question && !windows.unit_question,
        r == Listening::HelpKey <==> !typing && windows.help,
{
}

} // verus!
