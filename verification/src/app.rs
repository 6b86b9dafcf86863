use vstd::prelude::*;
use vstd::string::*;
use crate::config::Config;
use crate::errors::AppError;
use crate::json::{
    json_is_valid, json_wf, spec_is_container, spec_render, spec_resolve, spec_view_entries,
    JsonNode, JsonVal,
};
use crate::path::{canonicalize, norm_segment, path_views, spec_norm_segment, spec_pointer};
use crate::text::{pop_char, push_char};

verus! {

/// Which interactive mode the session is in.
#[derive(Clone, Copy, Debug, PartialEq, Eq, Structural)]
pub enum CurrentScreen {
    Main,
    Editing,
    Adding,
    Deleting,
}

/// An in-progress edit of the value under one key. The seeded text counts as
/// unchanged until the first keystroke replaces it.
pub struct CurrentlyEditing {
    pub key: String,
    pub value: String,
    pub changed: bool,
}

/// An in-progress append to the focused array.
pub struct CurrentlyAdding {
    pub value: String,
}

/// An in-progress delete of the value under one key, awaiting confirmation.
pub struct CurrentlyDeleting {
    pub key: String,
    pub are_you_sure: bool,
}

/// The edit session as the contracts see it.
#[verifier::ext_equal]
pub enum SessionModel {
    Browsing,
    FieldEdit { key: Seq<char>, text: Seq<char>, replaced: bool },
    ArrayAppend { text: Seq<char> },
    ConfirmDelete { key: Seq<char>, confirmed: bool },
}

/// One remote mutation, ready to send.
#[derive(Debug)]
pub enum RemoteOp {
    Write { path: String, value: String },
    Append { path: String, value: String },
    Remove { path: String },
}

/// A remote mutation as the contracts see it.
#[verifier::ext_equal]
pub enum OpModel {
    Write { path: Seq<char>, value: Seq<char> },
    Append { path: Seq<char>, value: Seq<char> },
    Remove { path: Seq<char> },
}

impl View for RemoteOp {
    type V = OpModel;

    open spec fn view(&self) -> OpModel {
        match *self {
            RemoteOp::Write { path, value } => OpModel::Write { path: path@, value: value@ },
            RemoteOp::Append { path, value } => OpModel::Append { path: path@, value: value@ },
            RemoteOp::Remove { path } => OpModel::Remove { path: path@ },
        }
    }
}

/// What the caller must do after a step: keep going, quit, or perform the
/// mutation (if any) and then refetch the whole document.
#[derive(Debug)]
pub enum Effect {
    Continue,
    Quit,
    Refresh(Option<RemoteOp>),
}

/// An effect as the contracts see it.
#[verifier::ext_equal]
pub enum EffectModel {
    Continue,
    Quit,
    Refresh(Option<OpModel>),
}

impl View for Effect {
    type V = EffectModel;

    open spec fn view(&self) -> EffectModel {
        match *self {
            Effect::Continue => EffectModel::Continue,
            Effect::Quit => EffectModel::Quit,
            Effect::Refresh(op) => EffectModel::Refresh(
                match op {
                    Some(o) => Some(o@),
                    None => None,
                },
            ),
        }
    }
}

/// What one key asks for while browsing.
enum MainAction {
    MoveDown,
    MoveUp,
    MoveFirst,
    MoveLast,
    Descend,
    Ascend,
    EnterEdit,
    EnterAdd,
    EnterDelete,
    Quit,
    Nothing,
}

/// One keyboard input, as the step function reads it. Keys that the step
/// function never distinguishes arrive as `Other`.
#[derive(Clone, Copy, Debug)]
pub enum Key {
    Char(char),
    Down,
    Up,
    Left,
    Right,
    Enter,
    Backspace,
    Esc,
    Tab,
    Other,
}

/// The whole interactive state: the fetched document, the credential, the
/// navigation stacks, the cursor, and the edit session.
pub struct App {
    pub json: JsonNode,
    pub config: Config,
    pub key_path: Vec<String>,
    pub locations: Vec<usize>,
    pub selection: usize,
    pub current_screen: CurrentScreen,
    pub currently_editing: Option<CurrentlyEditing>,
    pub currently_adding: Option<CurrentlyAdding>,
    pub currently_deleting: Option<CurrentlyDeleting>,
}

/// The interactive state as the contracts see it.
#[verifier::ext_equal]
pub struct AppModel {
    pub json: JsonVal,
    pub api_key: Seq<char>,
    pub key_path: Seq<Seq<char>>,
    pub locations: Seq<usize>,
    pub selection: usize,
    pub session: SessionModel,
}

impl View for App {
    type V = AppModel;

    open spec fn view(&self) -> AppModel {
        AppModel {
            json: self.json@,
            api_key: self.config.api_key@,
            key_path: path_views(self.key_path@),
            locations: self.locations@,
            selection: self.selection,
            session: match self.current_screen {
                CurrentScreen::Main => SessionModel::Browsing,
                CurrentScreen::Editing => match self.currently_editing {
                    Some(e) => SessionModel::FieldEdit {
                        key: e.key@,
                        text: e.value@,
                        replaced: e.changed,
                    },
                    None => SessionModel::Browsing,
                },
                CurrentScreen::Adding => match self.currently_adding {
                    Some(a) => SessionModel::ArrayAppend { text: a.value@ },
                    None => SessionModel::Browsing,
                },
                CurrentScreen::Deleting => match self.currently_deleting {
                    Some(d) => SessionModel::ConfirmDelete {
                        key: d.key@,
                        confirmed: d.are_you_sure,
                    },
                    None => SessionModel::Browsing,
                },
            },
        }
    }
}

impl App {
    /// At most one edit session is active, it agrees with the screen, and the
    /// two navigation stacks move together.
    pub open spec fn wf(self) -> bool {
        &&& self.key_path@.len() == self.locations@.len()
        &&& match self.current_screen {
            CurrentScreen::Main => {
                &&& self.currently_editing is None
                &&& self.currently_adding is None
                &&& self.currently_deleting is None
            },
            CurrentScreen::Editing => {
                &&& self.currently_editing is Some
                &&& self.currently_adding is None
                &&& self.currently_deleting is None
            },
            CurrentScreen::Adding => {
                &&& self.currently_editing is None
                &&& self.currently_adding is Some
                &&& self.currently_deleting is None
            },
            CurrentScreen::Deleting => {
                &&& self.currently_editing is None
                &&& self.currently_adding is None
                &&& self.currently_deleting is Some
            },
        }
    }

    /// Starts a session at the root of a fetched document.
    pub fn new(json: JsonNode, config: Config) -> (app: App)
        ensures
            app.wf(),
            app@ == (AppModel {
                json: json@,
                api_key: config.api_key@,
                key_path: Seq::<Seq<char>>::empty(),
                locations: Seq::<usize>::empty(),
                selection: 0usize,
                session: SessionModel::Browsing,
            }),
    {
        let app = App {
            json,
            config,
            key_path: Vec::new(),
            locations: Vec::new(),
            selection: 0,
            current_screen: CurrentScreen::Main,
            currently_editing: None,
            currently_adding: None,
            currently_deleting: None,
        };
        proof {
            assert(path_views(app.key_path@) =~= Seq::<Seq<char>>::empty());
            assert(app@ =~~= (AppModel {
                json: app.json@,
                api_key: app.config.api_key@,
                key_path: Seq::<Seq<char>>::empty(),
                locations: Seq::<usize>::empty(),
                selection: 0usize,
                session: SessionModel::Browsing,
            }));
        }
        app
    }

    /// Swaps in a newly refetched document wholesale; navigation, cursor and
    /// session stay as they are.
    pub fn replace(&mut self, json: JsonNode)
        requires
            old(self).wf(),
        ensures
            final(self).wf(),
            final(self)@ == (AppModel { json: json@, ..old(self)@ }),
    {
        self.json = json;
        proof {
            assert(self@ =~~= (AppModel { json: self.json@, ..old(self)@ }));
        }
    }

    /// On commit of a field edit: the target path is the canonical pointer of
    /// the navigation stack with the edited key behind it, and the payload is
    /// the pending text, which must be well-formed JSON. Without an active
    /// edit there is nothing to send.
    pub fn save_edited_value(&self) -> (r: Result<Option<RemoteOp>, AppError>)
        ensures
            match self.currently_editing {
                None => r == Ok::<Option<RemoteOp>, AppError>(None),
                Some(ed) => {
                    if json_wf(ed.value@) {
                        &&& r matches Ok(Some(op))
                        &&& op@ == (OpModel::Write {
                            path: spec_pointer(self@.key_path.push(ed.key@)),
                            value: ed.value@,
                        })
                    } else {
                        r == Err::<Option<RemoteOp>, AppError>(AppError::MalformedEdit)
                    }
                },
            },
    {
        match &self.currently_editing {
            Some(editing) => {
                if !json_is_valid(editing.value.as_str()) {
                    return Err(AppError::MalformedEdit);
                }
                let mut key_path = self.key_path.clone();
                key_path.push(editing.key.clone());
                proof {
                    assert(path_views(key_path@) =~= self@.key_path.push(editing.key@));
                }
                let path = canonicalize(&key_path);
                Ok(Some(RemoteOp::Write { path, value: editing.value.clone() }))
            },
            None => Ok(None),
        }
    }

    /// On commit of an array append: the target path is the canonical pointer
    /// of the navigation stack itself (the array, not an element), and the
    /// payload is the pending text, which must be well-formed JSON.
    pub fn push_object_to_array(&self) -> (r: Result<Option<RemoteOp>, AppError>)
        ensures
            match self.currently_adding {
                None => r == Ok::<Option<RemoteOp>, AppError>(None),
                Some(ad) => {
                    if json_wf(ad.value@) {
                        &&& r matches Ok(Some(op))
                        &&& op@ == (OpModel::Append {
                            path: spec_pointer(self@.key_path),
                            value: ad.value@,
                        })
                    } else {
                        r == Err::<Option<RemoteOp>, AppError>(AppError::MalformedEdit)
                    }
                },
            },
    {
        match &self.currently_adding {
            Some(adding) => {
                if !json_is_valid(adding.value.as_str()) {
                    return Err(AppError::MalformedEdit);
                }
                let path = canonicalize(&self.key_path);
                Ok(Some(RemoteOp::Append { path, value: adding.value.clone() }))
            },
            None => Ok(None),
        }
    }

    /// On commit of a confirmed delete: the target path is the canonical
    /// pointer of the navigation stack with the selected key behind it.
    /// Whether the delete was confirmed is the caller's test.
    pub fn delete_value(&self) -> (r: Result<Option<RemoteOp>, AppError>)
        ensures
            match self.currently_deleting {
                None => r == Ok::<Option<RemoteOp>, AppError>(None),
                Some(del) => {
                    &&& r matches Ok(Some(op))
                    &&& op@ == (OpModel::Remove {
                        path: spec_pointer(self@.key_path.push(del.key@)),
                    })
                },
            },
    {
        match &self.currently_deleting {
            Some(deleting) => {
                let mut key_path = self.key_path.clone();
                key_path.push(deleting.key.clone());
                proof {
                    assert(path_views(key_path@) =~= self@.key_path.push(deleting.key@));
                }
                let path = canonicalize(&key_path);
                Ok(Some(RemoteOp::Remove { path }))
            },
            None => Ok(None),
        }
    }

    /// Applies one key to the session, exactly as `spec_step` says: the state
    /// afterwards and the effect handed back are the ones the model names, and
    /// on an error nothing has moved.
    pub fn handle_key(&mut self, key: Key) -> (r: Result<Effect, AppError>)
        requires
            old(self).wf(),
        ensures
            final(self).wf(),
            match spec_step(old(self)@, key) {
                Ok(p) => {
                    &&& r matches Ok(eff)
                    &&& final(self)@ == p.0
                    &&& eff@ == p.1
                },
                Err(e) => {
                    &&& r == Err::<Effect, AppError>(e)
                    &&& *final(self) == *old(self)
                },
            },
    {
        let ghost m = self@;
        match self.current_screen {
            CurrentScreen::Main => {
                let vlen: usize;
                let node_is_arr: bool;
                let mut sel_key: Option<String> = None;
                let mut sel_container: bool = false;
                let mut sel_text: Option<String> = None;
                {
                    let node = match self.json.resolve(&self.key_path) {
                        Ok(n) => n,
                        Err(e) => {
                            return Err(e);
                        },
                    };
                    let entries = match node.view_entries() {
                        Ok(v) => v,
                        Err(e) => {
                            return Err(e);
                        },
                    };
                    vlen = entries.len();
                    node_is_arr = match node {
                        JsonNode::Arr(_) => true,
                        _ => false,
                    };
                    if self.selection < vlen {
                        let p = &entries[self.selection];
                        sel_key = Some(p.0.clone());
                        sel_container = p.1.is_container();
                        sel_text = Some(p.1.render());
                    }
                }
                let ghost node_s = spec_resolve(m.json, m.key_path)->Some_0;
                let ghost entries_s = spec_view_entries(node_s)->Some_0;
                proof {
                    assert(vlen as nat == entries_s.len());
                    assert(m.selection < vlen ==> sel_key is Some && sel_key->Some_0@
                        == entries_s[m.selection as int].0);
                    assert(m.selection < vlen ==> sel_container == spec_is_container(
                        entries_s[m.selection as int].1,
                    ));
                    assert(m.selection < vlen ==> sel_text is Some && sel_text->Some_0@
                        == spec_render(entries_s[m.selection as int].1));
                }
                let action: MainAction = match key {
                    Key::Char(c) => {
                        if c == 'j' {
                            MainAction::MoveDown
                        } else if c == 'k' {
                            MainAction::MoveUp
                        } else if c == '[' {
                            MainAction::MoveFirst
                        } else if c == ']' {
                            MainAction::MoveLast
                        } else if c == 'l' {
                            MainAction::Descend
                        } else if c == 'h' {
                            MainAction::Ascend
                        } else if c == 'e' {
                            MainAction::EnterEdit
                        } else if c == 'a' {
                            MainAction::EnterAdd
                        } else if c == 'd' {
                            MainAction::EnterDelete
                        } else if c == 'q' {
                            MainAction::Quit
                        } else {
                            MainAction::Nothing
                        }
                    },
                    Key::Down => MainAction::MoveDown,
                    Key::Up => MainAction::MoveUp,
                    Key::Right => MainAction::Descend,
                    Key::Left => MainAction::Ascend,
                    _ => MainAction::Nothing,
                };
                if matches!(action, MainAction::MoveDown) {
                    self.selection = if vlen == 0 {
                        0
                    } else if self.selection < vlen - 1 {
                        self.selection + 1
                    } else {
                        vlen - 1
                    };
                    proof {
                        assert(self@ =~~= with_sel(m, sel_down(m.selection, entries_s.len())));
                    }
                    Ok(Effect::Continue)
                } else if matches!(action, MainAction::MoveUp) {
                    self.selection = if self.selection > 0 {
                        self.selection - 1
                    } else {
                        0
                    };
                    proof {
                        assert(self@ =~~= with_sel(m, sel_up(m.selection)));
                    }
                    Ok(Effect::Continue)
                } else if matches!(action, MainAction::MoveFirst) {
                    self.selection = 0;
                    proof {
                        assert(self@ =~~= with_sel(m, 0usize));
                    }
                    Ok(Effect::Continue)
                } else if matches!(action, MainAction::MoveLast) {
                    self.selection = if vlen == 0 {
                        0
                    } else {
                        vlen - 1
                    };
                    proof {
                        assert(self@ =~~= with_sel(m, sel_last(entries_s.len())));
                    }
                    Ok(Effect::Continue)
                } else if matches!(action, MainAction::Descend) {
                    if self.selection >= vlen {
                        return Err(AppError::SelectionOutOfRange);
                    }
                    if sel_container {
                        let ks = sel_key.unwrap();
                        let seg = norm_segment(ks.as_str());
                        self.key_path.push(seg);
                        self.locations.push(self.selection);
                        self.selection = 0;
                        proof {
                            assert(path_views(self.key_path@) =~= m.key_path.push(
                                spec_norm_segment(entries_s[m.selection as int].0),
                            ));
                            assert(self@ =~~= step_descend(m, entries_s)->Ok_0.0);
                        }
                    }
                    Ok(Effect::Continue)
                } else if matches!(action, MainAction::Ascend) {
                    if self.locations.len() > 0 {
                        self.key_path.pop();
                        let restored = self.locations[self.locations.len() - 1];
                        self.selection = restored;
                        self.locations.pop();
                        proof {
                            assert(path_views(self.key_path@) =~= m.key_path.drop_last());
                            assert(self.locations@ =~= m.locations.drop_last());
                            assert(self@ =~~= step_ascend(m)->Ok_0.0);
                        }
                    }
                    Ok(Effect::Continue)
                } else if matches!(action, MainAction::EnterEdit) {
                    if self.selection >= vlen {
                        return Err(AppError::SelectionOutOfRange);
                    }
                    self.currently_editing = Some(
                        CurrentlyEditing {
                            key: sel_key.unwrap(),
                            value: sel_text.unwrap(),
                            changed: false,
                        },
                    );
                    self.current_screen = CurrentScreen::Editing;
                    proof {
                        assert(self@ =~~= step_enter_edit(m, entries_s)->Ok_0.0);
                    }
                    Ok(Effect::Continue)
                } else if matches!(action, MainAction::EnterAdd) {
                    if node_is_arr {
                        self.currently_adding = Some(CurrentlyAdding { value: String::new() });
                        self.current_screen = CurrentScreen::Adding;
                        proof {
                            assert(self@ =~~= step_enter_add(m, node_s)->Ok_0.0);
                        }
                    }
                    Ok(Effect::Continue)
                } else if matches!(action, MainAction::EnterDelete) {
                    if self.selection >= vlen {
                        return Err(AppError::SelectionOutOfRange);
                    }
                    self.currently_deleting = Some(
                        CurrentlyDeleting { key: sel_key.unwrap(), are_you_sure: false },
                    );
                    self.current_screen = CurrentScreen::Deleting;
                    proof {
                        assert(self@ =~~= step_enter_delete(m, entries_s)->Ok_0.0);
                    }
                    Ok(Effect::Continue)
                } else if matches!(action, MainAction::Quit) {
                    Ok(Effect::Quit)
                } else {
                    Ok(Effect::Continue)
                }
            },
            CurrentScreen::Editing => {
                {
                    let node = match self.json.resolve(&self.key_path) {
                        Ok(n) => n,
                        Err(e) => {
                            return Err(e);
                        },
                    };
                    match node.view_entries() {
                        Ok(_) => (),
                        Err(e) => {
                            return Err(e);
                        },
                    };
                }
                match key {
                    Key::Enter => {
                        let op = match self.save_edited_value() {
                            Ok(o) => o,
                            Err(e) => {
                                return Err(e);
                            },
                        };
                        self.currently_editing = None;
                        self.current_screen = CurrentScreen::Main;
                        proof {
                            assert(self@ =~~= browse(m));
                        }
                        Ok(Effect::Refresh(op))
                    },
                    Key::Backspace => {
                        if let Some(editing) = &mut self.currently_editing {
                            if !editing.changed {
                                editing.value = String::new();
                                editing.changed = true;
                            } else {
                                pop_char(&mut editing.value);
                            }
                        }
                        proof {
                            assert(self@ =~~= spec_step(m, key)->Ok_0.0);
                        }
                        Ok(Effect::Continue)
                    },
                    Key::Esc => {
                        self.currently_editing = None;
                        self.current_screen = CurrentScreen::Main;
                        proof {
                            assert(self@ =~~= browse(m));
                        }
                        Ok(Effect::Continue)
                    },
                    Key::Char(c) => {
                        if let Some(editing) = &mut self.currently_editing {
                            if !editing.changed {
                                editing.value = String::new();
                                editing.changed = true;
                            }
                            push_char(&mut editing.value, c);
                        }
                        proof {
                            assert(self@ =~~= spec_step(m, key)->Ok_0.0);
                        }
                        Ok(Effect::Continue)
                    },
                    _ => Ok(Effect::Continue),
                }
            },
            CurrentScreen::Adding => {
                {
                    let node = match self.json.resolve(&self.key_path) {
                        Ok(n) => n,
                        Err(e) => {
                            return Err(e);
                        },
                    };
                    match node.view_entries() {
                        Ok(_) => (),
                        Err(e) => {
                            return Err(e);
                        },
                    };
                }
                match key {
                    Key::Enter => {
                        let op = match self.push_object_to_array() {
                            Ok(o) => o,
                            Err(e) => {
                                return Err(e);
                            },
                        };
                        self.currently_adding = None;
                        self.current_screen = CurrentScreen::Main;
                        proof {
                            assert(self@ =~~= browse(m));
                        }
                        Ok(Effect::Refresh(op))
                    },
                    Key::Backspace => {
                        if let Some(adding) = &mut self.currently_adding {
                            pop_char(&mut adding.value);
                        }
                        proof {
                            assert(self@ =~~= spec_step(m, key)->Ok_0.0);
                        }
                        Ok(Effect::Continue)
                    },
                    Key::Esc => {
                        self.currently_adding = None;
                        self.current_screen = CurrentScreen::Main;
                        proof {
                            assert(self@ =~~= browse(m));
                        }
                        Ok(Effect::Continue)
                    },
                    Key::Char(c) => {
                        if let Some(adding) = &mut self.currently_adding {
                            push_char(&mut adding.value, c);
                        }
                        proof {
                            assert(self@ =~~= spec_step(m, key)->Ok_0.0);
                        }
                        Ok(Effect::Continue)
                    },
                    _ => Ok(Effect::Continue),
                }
            },
            CurrentScreen::Deleting => {
                {
                    let node = match self.json.resolve(&self.key_path) {
                        Ok(n) => n,
                        Err(e) => {
                            return Err(e);
                        },
                    };
                    match node.view_entries() {
                        Ok(_) => (),
                        Err(e) => {
                            return Err(e);
                        },
                    };
                }
                match key {
                    Key::Enter => {
                        let confirmed = match &self.currently_deleting {
                            Some(d) => d.are_you_sure,
                            None => false,
                        };
                        let op = if confirmed {
                            match self.delete_value() {
                                Ok(o) => o,
                                Err(e) => {
                                    return Err(e);
                                },
                            }
                        } else {
                            None
                        };
                        self.currently_deleting = None;
                        self.current_screen = CurrentScreen::Main;
                        proof {
                            assert(self@ =~~= browse(m));
                        }
                        Ok(Effect::Refresh(op))
                    },
                    Key::Esc => {
                        self.currently_deleting = None;
                        self.current_screen = CurrentScreen::Main;
                        proof {
                            assert(self@ =~~= browse(m));
                        }
                        Ok(Effect::Continue)
                    },
                    Key::Tab => {
                        if let Some(deleting) = &mut self.currently_deleting {
                            deleting.are_you_sure = !deleting.are_you_sure;
                        }
                        proof {
                            assert(self@ =~~= spec_step(m, key)->Ok_0.0);
                        }
                        Ok(Effect::Continue)
                    },
                    _ => Ok(Effect::Continue),
                }
            },
        }
    }
}

/// The model with the cursor somewhere else.
pub open spec fn with_sel(m: AppModel, s: usize) -> AppModel {
    AppModel { selection: s, ..m }
}

/// The model back in browsing mode.
pub open spec fn browse(m: AppModel) -> AppModel {
    AppModel { session: SessionModel::Browsing, ..m }
}

/// Where the cursor lands moving down: one step, stopped at the last entry.
pub open spec fn sel_down(sel: usize, len: nat) -> usize {
    if len == 0 {
        0usize
    } else if sel + 1 < len {
        (sel + 1) as usize
    } else {
        (len - 1) as usize
    }
}

/// Where the cursor lands moving up: one step, stopped at the first entry.
pub open spec fn sel_up(sel: usize) -> usize {
    if sel > 0 {
        (sel - 1) as usize
    } else {
        0usize
    }
}

/// The last entry's position, or the top for an empty view.
pub open spec fn sel_last(len: nat) -> usize {
    if len == 0 {
        0usize
    } else {
        (len - 1) as usize
    }
}

/// Entering the selected child: only a container is entered, under its
/// normalized display key, and the cursor position is remembered for the way
/// back. On a scalar nothing moves.
pub open spec fn step_descend(m: AppModel, entries: Seq<(Seq<char>, JsonVal)>) -> Result<
    (AppModel, EffectModel),
    AppError,
> {
    if m.selection >= entries.len() {
        Err(AppError::SelectionOutOfRange)
    } else if spec_is_container(entries[m.selection as int].1) {
        Ok(
            (
                AppModel {
                    key_path: m.key_path.push(spec_norm_segment(entries[m.selection as int].0)),
                    locations: m.locations.push(m.selection),
                    selection: 0usize,
                    ..m
                },
                EffectModel::Continue,
            ),
        )
    } else {
        Ok((m, EffectModel::Continue))
    }
}

/// Going back to the parent: both stacks pop together and the cursor returns
/// to where it stood. At the root nothing moves.
pub open spec fn step_ascend(m: AppModel) -> Result<(AppModel, EffectModel), AppError> {
    if m.locations.len() > 0 {
        Ok(
            (
                AppModel {
                    key_path: m.key_path.drop_last(),
                    locations: m.locations.drop_last(),
                    selection: m.locations.last(),
                    ..m
                },
                EffectModel::Continue,
            ),
        )
    } else {
        Ok((m, EffectModel::Continue))
    }
}

/// Opening a field edit on the selected key, seeded with the written form of
/// the current value.
pub open spec fn step_enter_edit(m: AppModel, entries: Seq<(Seq<char>, JsonVal)>) -> Result<
    (AppModel, EffectModel),
    AppError,
> {
    if m.selection >= entries.len() {
        Err(AppError::SelectionOutOfRange)
    } else {
        Ok(
            (
                AppModel {
                    session: SessionModel::FieldEdit {
                        key: entries[m.selection as int].0,
                        text: spec_render(entries[m.selection as int].1),
                        replaced: false,
                    },
                    ..m
                },
                EffectModel::Continue,
            ),
        )
    }
}

/// Opening an append, allowed only while an array is in focus; the pending
/// text starts empty.
pub open spec fn step_enter_add(m: AppModel, node: JsonVal) -> Result<
    (AppModel, EffectModel),
    AppError,
> {
    if node is Arr {
        Ok(
            (
                AppModel {
                    session: SessionModel::ArrayAppend { text: Seq::empty() },
                    ..m
                },
                EffectModel::Continue,
            ),
        )
    } else {
        Ok((m, EffectModel::Continue))
    }
}

/// Opening a delete confirmation on the selected key, unconfirmed.
pub open spec fn step_enter_delete(m: AppModel, entries: Seq<(Seq<char>, JsonVal)>) -> Result<
    (AppModel, EffectModel),
    AppError,
> {
    if m.selection >= entries.len() {
        Err(AppError::SelectionOutOfRange)
    } else {
        Ok(
            (
                AppModel {
                    session: SessionModel::ConfirmDelete {
                        key: entries[m.selection as int].0,
                        confirmed: false,
                    },
                    ..m
                },
                EffectModel::Continue,
            ),
        )
    }
}

/// One browsing step.
pub open spec fn spec_step_main(
    m: AppModel,
    node: JsonVal,
    entries: Seq<(Seq<char>, JsonVal)>,
    key: Key,
) -> Result<(AppModel, EffectModel), AppError> {
    match key {
        Key::Char(c) => {
            if c == 'j' {
                Ok((with_sel(m, sel_down(m.selection, entries.len())), EffectModel::Continue))
            } else if c == 'k' {
                Ok((with_sel(m, sel_up(m.selection)), EffectModel::Continue))
            } else if c == '[' {
                Ok((with_sel(m, 0usize), EffectModel::Continue))
            } else if c == ']' {
                Ok((with_sel(m, sel_last(entries.len())), EffectModel::Continue))
            } else if c == 'l' {
                step_descend(m, entries)
            } else if c == 'h' {
                step_ascend(m)
            } else if c == 'e' {
                step_enter_edit(m, entries)
            } else if c == 'a' {
                step_enter_add(m, node)
            } else if c == 'd' {
                step_enter_delete(m, entries)
            } else if c == 'q' {
                Ok((m, EffectModel::Quit))
            } else {
                Ok((m, EffectModel::Continue))
            }
        },
        Key::Down => Ok((with_sel(m, sel_down(m.selection, entries.len())), EffectModel::Continue)),
        Key::Up => Ok((with_sel(m, sel_up(m.selection)), EffectModel::Continue)),
        Key::Right => step_descend(m, entries),
        Key::Left => step_ascend(m),
        _ => Ok((m, EffectModel::Continue)),
    }
}

/// One field-edit step. Enter commits: the pending text must be well-formed
/// JSON, the write goes to the navigation stack's pointer with the edited key
/// behind it, and the session closes. The first character or backspace
/// replaces the seeded text; later ones append or erase one character.
pub open spec fn spec_step_editing(
    m: AppModel,
    k: Seq<char>,
    text: Seq<char>,
    replaced: bool,
    key: Key,
) -> Result<(AppModel, EffectModel), AppError> {
    match key {
        Key::Enter => {
            if json_wf(text) {
                Ok(
                    (
                        browse(m),
                        EffectModel::Refresh(
                            Some(
                                OpModel::Write {
                                    path: spec_pointer(m.key_path.push(k)),
                                    value: text,
                                },
                            ),
                        ),
                    ),
                )
            } else {
                Err(AppError::MalformedEdit)
            }
        },
        Key::Backspace => {
            if !replaced {
                Ok(
                    (
                        AppModel {
                            session: SessionModel::FieldEdit {
                                key: k,
                                text: Seq::empty(),
                                replaced: true,
                            },
                            ..m
                        },
                        EffectModel::Continue,
                    ),
                )
            } else {
                Ok(
                    (
                        AppModel {
                            session: SessionModel::FieldEdit {
                                key: k,
                                text: if text.len() == 0 {
                                    text
                                } else {
                                    text.drop_last()
                                },
                                replaced,
                            },
                            ..m
                        },
                        EffectModel::Continue,
                    ),
                )
            }
        },
        Key::Esc => Ok((browse(m), EffectModel::Continue)),
        Key::Char(c) => {
            if !replaced {
                Ok(
                    (
                        AppModel {
                            session: SessionModel::FieldEdit {
                                key: k,
                                text: Seq::empty().push(c),
                                replaced: true,
                            },
                            ..m
                        },
                        EffectModel::Continue,
                    ),
                )
            } else {
                Ok(
                    (
                        AppModel {
                            session: SessionModel::FieldEdit {
                                key: k,
                                text: text.push(c),
                                replaced,
                            },
                            ..m
                        },
                        EffectModel::Continue,
                    ),
                )
            }
        },
        _ => Ok((m, EffectModel::Continue)),
    }
}

/// One append step. Enter commits to the navigation stack's own pointer (the
/// array, not an element); the pending text must be well-formed JSON.
pub open spec fn spec_step_adding(m: AppModel, text: Seq<char>, key: Key) -> Result<
    (AppModel, EffectModel),
    AppError,
> {
    match key {
        Key::Enter => {
            if json_wf(text) {
                Ok(
                    (
                        browse(m),
                        EffectModel::Refresh(
                            Some(
                                OpModel::Append {
                                    path: spec_pointer(m.key_path),
                                    value: text,
                                },
                            ),
                        ),
                    ),
                )
            } else {
                Err(AppError::MalformedEdit)
            }
        },
        Key::Backspace => Ok(
            (
                AppModel {
                    session: SessionModel::ArrayAppend {
                        text: if text.len() == 0 {
                            text
                        } else {
                            text.drop_last()
                        },
                    },
                    ..m
                },
                EffectModel::Continue,
            ),
        ),
        Key::Esc => Ok((browse(m), EffectModel::Continue)),
        Key::Char(c) => Ok(
            (
                AppModel { session: SessionModel::ArrayAppend { text: text.push(c) }, ..m },
                EffectModel::Continue,
            ),
        ),
        _ => Ok((m, EffectModel::Continue)),
    }
}

/// One delete-confirmation step. Enter always closes the session and asks for
/// a refetch, but only a confirmed delete sends a remote call; Tab flips the
/// confirmation.
pub open spec fn spec_step_deleting(m: AppModel, k: Seq<char>, confirmed: bool, key: Key) -> Result<
    (AppModel, EffectModel),
    AppError,
> {
    match key {
        Key::Enter => Ok(
            (
                browse(m),
                EffectModel::Refresh(
                    if confirmed {
                        Some(OpModel::Remove { path: spec_pointer(m.key_path.push(k)) })
                    } else {
                        None
                    },
                ),
            ),
        ),
        Key::Esc => Ok((browse(m), EffectModel::Continue)),
        Key::Tab => Ok(
            (
                AppModel {
                    session: SessionModel::ConfirmDelete { key: k, confirmed: !confirmed },
                    ..m
                },
                EffectModel::Continue,
            ),
        ),
        _ => Ok((m, EffectModel::Continue)),
    }
}

/// One step of the session: what a single key does to the whole state, and
/// what the caller must then do. The navigation stack must still resolve to a
/// viewable container, as the redraw before every key demands; then the key is
/// read under whichever mode is active.
pub open spec fn spec_step(m: AppModel, key: Key) -> Result<(AppModel, EffectModel), AppError> {
    if spec_resolve(m.json, m.key_path) is None {
        Err(AppError::PointerResolution)
    } else if spec_view_entries(spec_resolve(m.json, m.key_path)->Some_0) is None {
        Err(AppError::TypeMismatch)
    } else {
        let node = spec_resolve(m.json, m.key_path)->Some_0;
        let entries = spec_view_entries(node)->Some_0;
        match m.session {
            SessionModel::Browsing => spec_step_main(m, node, entries, key),
            SessionModel::FieldEdit { key: k, text, replaced } => spec_step_editing(
                m,
                k,
                text,
                replaced,
                key,
            ),
            SessionModel::ArrayAppend { text } => spec_step_adding(m, text, key),
            SessionModel::ConfirmDelete { key: k, confirmed } => spec_step_deleting(
                m,
                k,
                confirmed,
                key,
            ),
        }
    }
}

/// Entering the selected container and stepping right back out restores the
/// whole state: the cursor returns to where it stood and both navigation
/// stacks are exactly as they were.
pub proof fn lemma_descend_ascend(m: AppModel, entries: Seq<(Seq<char>, JsonVal)>)
    requires
        m.selection < entries.len(),
        spec_is_container(entries[m.selection as int].1),
    ensures
        step_descend(m, entries) is Ok,
        step_ascend(step_descend(m, entries)->Ok_0.0) is Ok,
        step_ascend(step_descend(m, entries)->Ok_0.0)->Ok_0.0 == m,
{
    let m1 = step_descend(m, entries)->Ok_0.0;
    assert(m1.key_path.drop_last() =~= m.key_path);
    assert(m1.locations.drop_last() =~= m.locations);
    assert(m1.locations.last() == m.selection);
    assert(step_ascend(m1)->Ok_0.0 =~~= m);
}

/// In a fresh field edit the first character replaces the seeded text with
/// that single character; the one after it appends, giving two characters.
pub proof fn lemma_first_keystroke_replaces(m: AppModel, c1: char, c2: char)
    requires
        m.session matches SessionModel::FieldEdit { replaced: false, .. },
        spec_resolve(m.json, m.key_path) is Some,
        spec_view_entries(spec_resolve(m.json, m.key_path)->Some_0) is Some,
    ensures
        ({
            let k = m.session->FieldEdit_key;
            let m1 = spec_step(m, Key::Char(c1))->Ok_0.0;
            let m2 = spec_step(m1, Key::Char(c2))->Ok_0.0;
            &&& spec_step(m, Key::Char(c1)) is Ok
            &&& m1.session == (SessionModel::FieldEdit {
                key: k,
                text: seq![c1],
                replaced: true,
            })
            &&& spec_step(m1, Key::Char(c2)) is Ok
            &&& m2.session == (SessionModel::FieldEdit {
                key: k,
                text: seq![c1, c2],
                replaced: true,
            })
        }),
{
    let k = m.session->FieldEdit_key;
    let m1 = spec_step(m, Key::Char(c1))->Ok_0.0;
    assert(Seq::<char>::empty().push(c1) =~= seq![c1]);
    assert(m1.json == m.json && m1.key_path == m.key_path);
    let m2 = spec_step(m1, Key::Char(c2))->Ok_0.0;
    assert(seq![c1].push(c2) =~= seq![c1, c2]);
}

/// Committing a delete that was never confirmed sends no remote call at all
/// and simply returns to browsing.
pub proof fn lemma_unconfirmed_delete_is_noop(m: AppModel)
    requires
        m.session matches SessionModel::ConfirmDelete { confirmed: false, .. },
        spec_resolve(m.json, m.key_path) is Some,
        spec_view_entries(spec_resolve(m.json, m.key_path)->Some_0) is Some,
    ensures
        spec_step(m, Key::Enter) == Ok::<(AppModel, EffectModel), AppError>(
            (browse(m), EffectModel::Refresh(None)),
        ),
{
}

} // verus!
