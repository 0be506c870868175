//! The view controller: a two-screen state machine dispatching key
//! events to the task list or the compose form, with an orthogonal
//! exit flag. Its whole behaviour is the spec transition function
//! `spec_step`; the handler is proved to follow it key by key.

use vstd::prelude::*;

use crate::form::{
    form_wf, spec_advance_focus, spec_backspace, spec_empty_form, spec_insert,
    spec_parse_duration, parse_duration, FormView, InputForm,
};
use crate::store::{spec_toggle_status, TaskStore};
use crate::task::{Status, Task, TaskView};
use crate::text::chars_to_string;
use vstd::string::StringExecFns;

verus! {

/// The two screens: the task list, and the new-task form.
#[derive(Clone, Copy, Debug, PartialEq, Eq, Structural)]
pub enum Screen {
    List,
    Compose,
}

/// One key event, as the controller distinguishes them. Any other key
/// is a no-op and never reaches the controller.
#[derive(Clone, Copy, Debug)]
pub enum Key {
    Char(char),
    Enter,
    Backspace,
    Tab,
    Esc,
    Up,
    Down,
}

/// The whole interactive state: the store, the screen, the exit flag,
/// the details-overlay flag, the selection cursor, and the form.
#[derive(Debug)]
pub struct App {
    pub store: TaskStore,
    pub screen: Screen,
    pub exit: bool,
    pub show_description: bool,
    pub selected: Option<usize>,
    pub form: InputForm,
}

/// The model of the interactive state.
#[verifier::ext_equal]
pub ghost struct AppView {
    pub tasks: Seq<TaskView>,
    pub screen: Screen,
    pub exit: bool,
    pub show_description: bool,
    pub selected: Option<int>,
    pub form: FormView,
}

impl View for App {
    type V = AppView;

    open spec fn view(&self) -> AppView {
        AppView {
            tasks: self.store@,
            screen: self.screen,
            exit: self.exit,
            show_description: self.show_description,
            selected: match self.selected {
                None => None,
                Some(i) => Some(i as int),
            },
            form: self.form@,
        }
    }
}

/// A selection cursor names a task, and the focus names a buffer.
pub open spec fn app_wf(a: AppView) -> bool {
    form_wf(a.form) && (a.selected matches Some(i) ==> 0 <= i < a.tasks.len())
}

/// The cursor after a "next" move over `n` tasks: with no tasks it
/// stays put; with no selection it takes the first task; from the last
/// task it wraps to the first, else it advances by one.
pub open spec fn spec_next_selection(sel: Option<int>, n: int) -> Option<int> {
    if n == 0 {
        sel
    } else {
        match sel {
            None => Some(0),
            Some(i) => if i >= n - 1 {
                Some(0)
            } else {
                Some(i + 1)
            },
        }
    }
}

/// The cursor after a "previous" move over `n` tasks: with no tasks it
/// stays put; with no selection it takes the first task; from the
/// first task it wraps to the last, else it retreats by one.
pub open spec fn spec_prev_selection(sel: Option<int>, n: int) -> Option<int> {
    if n == 0 {
        sel
    } else {
        match sel {
            None => Some(0),
            Some(i) => if i == 0 {
                Some(n - 1)
            } else {
                Some(i - 1)
            },
        }
    }
}

/// A commit attempt on the compose screen. A valid duration buffer
/// appends one new task — status NotStarted, created at `now`, duration
/// the buffer's hours widened to seconds, title and description from
/// their buffers — and returns to the list. An invalid one changes no
/// task and stays on the compose screen, flagging the buffer.
pub open spec fn spec_commit(a: AppView, now: Seq<char>) -> AppView {
    match spec_parse_duration(a.form.duration) {
        None => AppView { form: FormView { duration_invalid: true, ..a.form }, ..a },
        Some(hours) => AppView {
            tasks: a.tasks.push(
                TaskView {
                    created: now,
                    duration_secs: (hours * 3600) as u64,
                    title: a.form.title,
                    description: a.form.description,
                    status: Status::NotStarted,
                },
            ),
            screen: Screen::List,
            form: FormView { duration_invalid: false, ..a.form },
            ..a
        },
    }
}

/// The transition table: what one key event does to the state, given
/// the creation stamp `now` a commit would use.
pub open spec fn spec_step(a: AppView, key: Key, now: Seq<char>) -> AppView {
    match a.screen {
        Screen::List => match key {
            Key::Char(c) => if c == 'q' {
                AppView { exit: true, ..a }
            } else if c == 'n' {
                AppView { screen: Screen::Compose, form: spec_empty_form(), ..a }
            } else if c == ' ' {
                AppView { show_description: !a.show_description, ..a }
            } else {
                a
            },
            Key::Down => AppView {
                selected: spec_next_selection(a.selected, a.tasks.len() as int),
                ..a
            },
            Key::Up => AppView {
                selected: spec_prev_selection(a.selected, a.tasks.len() as int),
                ..a
            },
            Key::Enter => match a.selected {
                None => a,
                Some(i) => AppView { tasks: spec_toggle_status(a.tasks, i), ..a },
            },
            _ => a,
        },
        Screen::Compose => match key {
            Key::Esc => AppView { screen: Screen::List, form: spec_empty_form(), ..a },
            Key::Tab => AppView { form: spec_advance_focus(a.form), ..a },
            Key::Char(c) => AppView { form: spec_insert(a.form, c), ..a },
            Key::Backspace => AppView { form: spec_backspace(a.form), ..a },
            Key::Enter => spec_commit(a, now),
            _ => a,
        },
    }
}

impl App {
    /// The state a run starts in: the loaded store, the list screen,
    /// nothing selected, the overlay hidden, a fresh form.
    pub fn new(store: TaskStore) -> (r: Self)
        ensures
            r@ == (AppView {
                tasks: store@,
                screen: Screen::List,
                exit: false,
                show_description: false,
                selected: None,
                form: spec_empty_form(),
            }),
            app_wf(r@),
    {
        let r = App {
            store,
            screen: Screen::List,
            exit: false,
            show_description: false,
            selected: None,
            form: InputForm::new(),
        };
        proof {
            assert(r@ =~= AppView {
                tasks: r.store@,
                screen: Screen::List,
                exit: false,
                show_description: false,
                selected: None,
                form: spec_empty_form(),
            });
        }
        r
    }

    /// Moves the selection cursor one task down, wrapping at the end;
    /// an empty store leaves it untouched.
    pub fn next(&mut self)
        ensures
            final(self)@ == (AppView {
                selected: spec_next_selection(old(self)@.selected, old(self)@.tasks.len() as int),
                ..old(self)@
            }),
    {
        let n = self.store.len();
        if n > 0 {
            self.selected = match self.selected {
                None => Some(0),
                Some(i) => if i >= n - 1 {
                    Some(0)
                } else {
                    Some(i + 1)
                },
            };
        }
        proof {
            assert(self@ =~= AppView {
                selected: spec_next_selection(old(self)@.selected, old(self)@.tasks.len() as int),
                ..old(self)@
            });
        }
    }

    /// Moves the selection cursor one task up, wrapping at the start;
    /// an empty store leaves it untouched.
    pub fn previous(&mut self)
        ensures
            final(self)@ == (AppView {
                selected: spec_prev_selection(old(self)@.selected, old(self)@.tasks.len() as int),
                ..old(self)@
            }),
    {
        let n = self.store.len();
        if n > 0 {
            self.selected = match self.selected {
                None => Some(0),
                Some(i) => if i == 0 {
                    Some(n - 1)
                } else {
                    Some(i - 1)
                },
            };
        }
        proof {
            assert(self@ =~= AppView {
                selected: spec_prev_selection(old(self)@.selected, old(self)@.tasks.len() as int),
                ..old(self)@
            });
        }
    }

    /// Handles one key event, with `now` as the creation stamp a
    /// commit would carry: the state steps exactly as the transition
    /// table says, and a well-formed state stays well-formed.
    pub fn handle_key(&mut self, key: Key, now: &str)
        ensures
            final(self)@ == spec_step(old(self)@, key, now@),
            app_wf(old(self)@) ==> app_wf(final(self)@),
    {
        match self.screen {
            Screen::List => match key {
                Key::Char(c) => {
                    if c == 'q' {
                        self.exit = true;
                    } else if c == 'n' {
                        self.screen = Screen::Compose;
                        self.form = InputForm::new();
                    } else if c == ' ' {
                        self.show_description = !self.show_description;
                    }
                },
                Key::Down => self.next(),
                Key::Up => self.previous(),
                Key::Enter => {
                    match self.selected {
                        None => {},
                        Some(i) => self.store.toggle_status_at(i),
                    }
                },
                _ => {},
            },
            Screen::Compose => match key {
                Key::Esc => {
                    self.screen = Screen::List;
                    self.form = InputForm::new();
                },
                Key::Tab => self.form.advance_focus(),
                Key::Char(c) => self.form.insert_char(c),
                Key::Backspace => self.form.backspace(),
                Key::Enter => {
                    match parse_duration(&self.form.duration) {
                        None => {
                            self.form.duration_invalid = true;
                        },
                        Some(hours) => {
                            let task = Task {
                                created: String::from_str(now),
                                duration_secs: hours * 3600,
                                title: chars_to_string(&self.form.title),
                                description: chars_to_string(&self.form.description),
                                status: Status::NotStarted,
                            };
                            self.store.append(task);
                            self.screen = Screen::List;
                            self.form.duration_invalid = false;
                        },
                    }
                },
                _ => {},
            },
        }
        proof {
            assert(self@ =~= spec_step(old(self)@, key, now@));
        }
    }

    /// Handles one key event, reading the clock for the creation stamp
    /// a commit would carry: the state steps as the transition table
    /// says for whatever stamp the clock gave.
    pub fn handle_key_now(&mut self, key: Key)
        ensures
            exists|now: Seq<char>| final(self)@ == #[trigger] spec_step(old(self)@, key, now),
            app_wf(old(self)@) ==> app_wf(final(self)@),
    {
        let now = crate::clock::now_rfc3339();
        self.handle_key(key, now.as_str());
        proof {
            assert(self@ == spec_step(old(self)@, key, now@));
        }
    }
}

/// Wrap-around of the selection cursor: over `n` tasks, "previous" on
/// the first task lands on the last, and "next" on the last lands on
/// the first.
pub proof fn lemma_selection_wraps(n: int)
    requires
        n >= 1,
    ensures
        spec_prev_selection(Some(0), n) == Some(n - 1),
        spec_next_selection(Some(n - 1), n) == Some(0 as int),
{
}

/// A commit attempt with an invalid duration buffer changes no task,
/// stays on the compose screen, and flags the buffer.
pub proof fn lemma_invalid_commit_changes_nothing(a: AppView, now: Seq<char>)
    requires
        a.screen == Screen::Compose,
        spec_parse_duration(a.form.duration) is None,
    ensures
        spec_step(a, Key::Enter, now).tasks == a.tasks,
        spec_step(a, Key::Enter, now).screen == Screen::Compose,
        spec_step(a, Key::Enter, now).form.duration_invalid,
{
}

/// Toggling the details overlay twice restores the whole state, on any
/// list-screen state — in particular, nothing else is disturbed, and an
/// empty store is handled like any other.
pub proof fn lemma_overlay_toggle_involution(a: AppView, now: Seq<char>)
    requires
        a.screen == Screen::List,
    ensures
        spec_step(spec_step(a, Key::Char(' '), now), Key::Char(' '), now) == a,
{
    assert(spec_step(spec_step(a, Key::Char(' '), now), Key::Char(' '), now) =~= a);
}

} // verus!
