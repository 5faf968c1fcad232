//! The editor's undo history and its command vocabulary.

use vstd::prelude::*;

verus! {

/// Most snapshots the undo history keeps; older ones are dropped.
pub open spec fn history_limit() -> nat {
    200
}

/// Undo and redo history of snapshots of the edited state.
pub struct EditHistory<S> {
    undo_snapshots: Vec<S>,
    redo_snapshots: Vec<S>,
    dirty: bool,
}

/// The undo stack after recording `current` before an edit: `current` is
/// pushed, and the oldest snapshot is dropped when there are too many.
pub open spec fn pushed<S>(undo: Seq<S>, current: S) -> Seq<S> {
    let u = undo.push(current);
    if u.len() > history_limit() {
        u.drop_first()
    } else {
        u
    }
}

impl<S> EditHistory<S> {
    /// Snapshots that undo restores, oldest first.
    pub closed spec fn undo_stack(&self) -> Seq<S> {
        self.undo_snapshots@
    }

    /// Snapshots that redo restores, oldest first.
    pub closed spec fn redo_stack(&self) -> Seq<S> {
        self.redo_snapshots@
    }

    /// The state was changed since it was last saved or loaded.
    pub closed spec fn is_dirty(&self) -> bool {
        self.dirty
    }

    /// An empty history of an unchanged state.
    pub fn new() -> (h: Self)
        ensures
            h.undo_stack() == Seq::<S>::empty(),
            h.redo_stack() == Seq::<S>::empty(),
            !h.is_dirty(),
    {
        EditHistory { undo_snapshots: Vec::new(), redo_snapshots: Vec::new(), dirty: false }
    }

    /// Record the state before an edit: it becomes the newest undo snapshot,
    /// the redo history is dropped and the state is marked changed.
    pub fn push_undo(&mut self, current: S)
        ensures
            final(self).undo_stack() == pushed(old(self).undo_stack(), current),
            final(self).redo_stack() == Seq::<S>::empty(),
            final(self).is_dirty(),
    {
        self.undo_snapshots.push(current);
        self.redo_snapshots.clear();
        self.dirty = true;
        if self.undo_snapshots.len() > 200 {
            let _oldest = self.undo_snapshots.remove(0);
            assert(self.undo_snapshots@ =~= pushed(old(self).undo_stack(), current));
        }
    }

    /// Undo: when there is a snapshot, it replaces `current` and the state it
    /// replaces becomes the newest redo snapshot. Whether there was one.
    pub fn undo(&mut self, current: &mut S) -> (done: bool)
        ensures
            done == (old(self).undo_stack().len() > 0),
            done ==> {
                &&& *final(current) == old(self).undo_stack().last()
                &&& final(self).undo_stack() == old(self).undo_stack().drop_last()
                &&& final(self).redo_stack() == old(self).redo_stack().push(*old(current))
                &&& final(self).is_dirty()
            },
            !done ==> *final(current) == *old(current) && final(self).undo_stack() == old(
                self,
            ).undo_stack() && final(self).redo_stack() == old(self).redo_stack()
                && final(self).is_dirty() == old(self).is_dirty(),
    {
        match self.undo_snapshots.pop() {
            Some(snapshot) => {
                let mut previous = snapshot;
                std::mem::swap(current, &mut previous);
                self.redo_snapshots.push(previous);
                self.dirty = true;
                true
            },
            None => false,
        }
    }

    /// Redo: when there is a snapshot, it replaces `current` and the state it
    /// replaces becomes the newest undo snapshot. Whether there was one.
    pub fn redo(&mut self, current: &mut S) -> (done: bool)
        ensures
            done == (old(self).redo_stack().len() > 0),
            done ==> {
                &&& *final(current) == old(self).redo_stack().last()
                &&& final(self).redo_stack() == old(self).redo_stack().drop_last()
                &&& final(self).undo_stack() == old(self).undo_stack().push(*old(current))
                &&& final(self).is_dirty()
            },
            !done ==> *final(current) == *old(current) && final(self).undo_stack() == old(
                self,
            ).undo_stack() && final(self).redo_stack() == old(self).redo_stack()
                && final(self).is_dirty() == old(self).is_dirty(),
    {
        match self.redo_snapshots.pop() {
            Some(snapshot) => {
                let mut previous = snapshot;
                std::mem::swap(current, &mut previous);
                self.undo_snapshots.push(previous);
                self.dirty = true;
                true
            },
            None => false,
        }
    }

    /// Forget all history, as after a project is created or loaded; the state
    /// is then unchanged.
    pub fn reset(&mut self)
        ensures
            final(self).undo_stack() == Seq::<S>::empty(),
            final(self).redo_stack() == Seq::<S>::empty(),
            !final(self).is_dirty(),
    {
        self.undo_snapshots.clear();
        self.redo_snapshots.clear();
        self.dirty = false;
    }

    /// Mark the state saved.
    pub fn mark_saved(&mut self)
        ensures
            final(self).undo_stack() == old(self).undo_stack(),
            final(self).redo_stack() == old(self).redo_stack(),
            !final(self).is_dirty(),
    {
        self.dirty = false;
    }

    /// Whether the state changed since it was last saved.
    pub fn dirty(&self) -> (b: bool)
        ensures
            b == self.is_dirty(),
    {
        self.dirty
    }
}

/// Undo then redo gives back the state and both stacks: with stacks `undo`
/// and `redo` and state `s`, an undo (possible when `undo` is not empty) leads
/// to `(undo.drop_last(), redo.push(s), undo.last())`, and a redo from there
/// leads back to `(undo, redo, s)`. The same holds for redo then undo.
pub proof fn lemma_undo_redo_roundtrip<S>(undo: Seq<S>, redo: Seq<S>, s: S)
    ensures
        undo.len() > 0 ==> ({
            let u1 = undo.drop_last();
            let r1 = redo.push(s);
            let s1 = undo.last();
            &&& r1.last() == s
            &&& r1.drop_last() == redo
            &&& u1.push(s1) == undo
        }),
        redo.len() > 0 ==> ({
            let r1 = redo.drop_last();
            let u1 = undo.push(s);
            let s1 = redo.last();
            &&& u1.last() == s
            &&& u1.drop_last() == undo
            &&& r1.push(s1) == redo
        }),
{
    if undo.len() > 0 {
        assert(undo.drop_last().push(undo.last()) =~= undo);
        assert(redo.push(s).drop_last() =~= redo);
    }
    if redo.len() > 0 {
        assert(redo.drop_last().push(redo.last()) =~= redo);
        assert(undo.push(s).drop_last() =~= undo);
    }
}

/// The undo history never holds more than its limit: a push onto a history
/// within the limit stays within it, and keeps the newest snapshots in order.
pub proof fn lemma_history_bounded<S>(undo: Seq<S>, current: S)
    requires
        undo.len() <= history_limit(),
    ensures
        pushed(undo, current).len() <= history_limit(),
        pushed(undo, current).last() == current,
        forall|i: int| 0 <= i < pushed(undo, current).len() - 1 ==> #[trigger] pushed(undo, current)[i]
            == undo[i + undo.len() + 1 - pushed(undo, current).len()],
{
}

/// A command of the editor, as named in menus and the command palette.
#[derive(Debug, Clone, Copy, PartialEq, Eq, Structural)]
pub enum EditorCommand {
    Undo,
    Redo,
    SaveProject,
    OpenProject,
    ImportMedia,
    RazorAtPlayhead,
    Delete,
    AddMarker,
    ToggleAudioMixer,
    ToggleInspector,
    ToggleColorWheels,
    Export,
    PlayPause,
    ZoomIn,
    ZoomOut,
    SelectAll,
    CommandPalette,
    ToggleFullscreen,
    NewProject,
    DetectScenes,
    AutoColor,
    RemoveBackground,
    EnhanceAudio,
    Upscale4K,
    StyleTransfer,
    SmartStabilize,
    /// A name that no command has.
    Unknown,
}

/// The command a name stands for; some commands have two names.
pub open spec fn command_named(n: Seq<char>) -> EditorCommand {
    if n == "Undo"@ {
        EditorCommand::Undo
    } else if n == "Redo"@ {
        EditorCommand::Redo
    } else if n == "Save Project"@ {
        EditorCommand::SaveProject
    } else if n == "Open Project"@ {
        EditorCommand::OpenProject
    } else if n == "Import Media"@ {
        EditorCommand::ImportMedia
    } else if n == "Razor at Playhead"@ || n == "Split at Playhead"@ {
        EditorCommand::RazorAtPlayhead
    } else if n == "Ripple Delete"@ || n == "Delete"@ {
        EditorCommand::Delete
    } else if n == "Add Marker"@ {
        EditorCommand::AddMarker
    } else if n == "Toggle Audio Mixer"@ {
        EditorCommand::ToggleAudioMixer
    } else if n == "Toggle Inspector"@ {
        EditorCommand::ToggleInspector
    } else if n == "Toggle Color Wheels"@ {
        EditorCommand::ToggleColorWheels
    } else if n == "Export"@ || n == "Export Project"@ {
        EditorCommand::Export
    } else if n == "Play/Pause"@ {
        EditorCommand::PlayPause
    } else if n == "Zoom In"@ {
        EditorCommand::ZoomIn
    } else if n == "Zoom Out"@ {
        EditorCommand::ZoomOut
    } else if n == "Select All"@ {
        EditorCommand::SelectAll
    } else if n == "Command Palette"@ {
        EditorCommand::CommandPalette
    } else if n == "Toggle Fullscreen"@ {
        EditorCommand::ToggleFullscreen
    } else if n == "New Project"@ {
        EditorCommand::NewProject
    } else if n == "Detect Scenes"@ || n == "Scene Detect"@ {
        EditorCommand::DetectScenes
    } else if n == "Auto Color"@ || n == "Auto Color Match"@ {
        EditorCommand::AutoColor
    } else if n == "Remove Background"@ {
        EditorCommand::RemoveBackground
    } else if n == "Enhance Audio"@ {
        EditorCommand::EnhanceAudio
    } else if n == "Upscale 4K"@ {
        EditorCommand::Upscale4K
    } else if n == "Style Transfer"@ {
        EditorCommand::StyleTransfer
    } else if n == "Smart Stabilize"@ {
        EditorCommand::SmartStabilize
    } else {
        EditorCommand::Unknown
    }
}

fn named(name: &String, word: &str) -> (b: bool)
    ensures
        b == (name@ == word@),
{
    *name == String::from_str(word)
}

/// The command with the given name.
pub fn parse_command(name: &str) -> (c: EditorCommand)
    ensures
        c == command_named(name@),
{
    let n = String::from_str(name);
    if named(&n, "Undo") {
        EditorCommand::Undo
    } else if named(&n, "Redo") {
        EditorCommand::Redo
    } else if named(&n, "Save Project") {
        EditorCommand::SaveProject
    } else if named(&n, "Open Project") {
        EditorCommand::OpenProject
    } else if named(&n, "Import Media") {
        EditorCommand::ImportMedia
    } else if named(&n, "Razor at Playhead") || named(&n, "Split at Playhead") {
        EditorCommand::RazorAtPlayhead
    } else if named(&n, "Ripple Delete") || named(&n, "Delete") {
        EditorCommand::Delete
    } else if named(&n, "Add Marker") {
        EditorCommand::AddMarker
    } else if named(&n, "Toggle Audio Mixer") {
        EditorCommand::ToggleAudioMixer
    } else if named(&n, "Toggle Inspector") {
        EditorCommand::ToggleInspector
    } else if named(&n, "Toggle Color Wheels") {
        EditorCommand::ToggleColorWheels
    } else if named(&n, "Export") || named(&n, "Export Project") {
        EditorCommand::Export
    } else if named(&n, "Play/Pause") {
        EditorCommand::PlayPause
    } else if named(&n, "Zoom In") {
        EditorCommand::ZoomIn
    } else if named(&n, "Zoom Out") {
        EditorCommand::ZoomOut
    } else if named(&n, "Select All") {
        EditorCommand::SelectAll
    } else if named(&n, "Command Palette") {
        EditorCommand::CommandPalette
    } else if named(&n, "Toggle Fullscreen") {
        EditorCommand::ToggleFullscreen
    } else if named(&n, "New Project") {
        EditorCommand::NewProject
    } else if named(&n, "Detect Scenes") || named(&n, "Scene Detect") {
        EditorCommand::DetectScenes
    } else if named(&n, "Auto Color") || named(&n, "Auto Color Match") {
        EditorCommand::AutoColor
    } else if named(&n, "Remove Background") {
        EditorCommand::RemoveBackground
    } else if named(&n, "Enhance Audio") {
        EditorCommand::EnhanceAudio
    } else if named(&n, "Upscale 4K") {
        EditorCommand::Upscale4K
    } else if named(&n, "Style Transfer") {
        EditorCommand::StyleTransfer
    } else if named(&n, "Smart Stabilize") {
        EditorCommand::SmartStabilize
    } else {
        EditorCommand::Unknown
    }
}

impl EditorCommand {
    /// Whether the command changes the timeline's clips, so that the state
    /// before it is recorded for undo.
    pub fn records_undo(&self) -> (b: bool)
        ensures
            b == (*self == EditorCommand::RazorAtPlayhead || *self == EditorCommand::Delete),
    {
        match self {
            EditorCommand::RazorAtPlayhead => true,
            EditorCommand::Delete => true,
            _ => false,
        }
    }
}


/// A key the editor has a shortcut for.
#[derive(Debug, Clone, Copy, PartialEq, Eq, Structural)]
pub enum Key {
    Space,
    J,
    K,
    L,
    ArrowLeft,
    ArrowRight,
    Home,
    End,
    M,
    I,
    C,
    Delete,
    Backspace,
    G,
    Plus,
    Equals,
    Minus,
    Escape,
    Z,
    S,
    O,
    E,
    /// A key without a shortcut.
    Other,
}

/// What a key press does.
#[derive(Debug, Clone, Copy, PartialEq, Eq, Structural)]
pub enum KeyAction {
    /// Run an editor command.
    Run(EditorCommand),
    /// Play backwards faster (J).
    PlayReverse,
    /// Stop and reset the speed (K).
    StopPlayback,
    /// Play forwards faster (L).
    PlayForward,
    /// Pause and step one frame back.
    StepBack,
    /// Pause and step one frame forward.
    StepForward,
    /// Jump to the start of the timeline.
    JumpToStart,
    /// Jump to the end of the last clip.
    JumpToEnd,
    /// Show or hide the curve editor.
    ToggleCurveEditor,
    /// Close the command palette and clear the clip selection.
    Dismiss,
}

/// What a key does without regard to ⌘ (except where ⌘ turns it into a
/// shortcut of its own: M and I).
pub open spec fn plain_key_actions(key: Key, command: bool) -> Seq<KeyAction> {
    match key {
        Key::Space => seq![KeyAction::Run(EditorCommand::PlayPause)],
        Key::J => seq![KeyAction::PlayReverse],
        Key::K => seq![KeyAction::StopPlayback],
        Key::L => seq![KeyAction::PlayForward],
        Key::ArrowLeft => seq![KeyAction::StepBack],
        Key::ArrowRight => seq![KeyAction::StepForward],
        Key::Home => seq![KeyAction::JumpToStart],
        Key::End => seq![KeyAction::JumpToEnd],
        Key::M => if command { Seq::empty() } else { seq![KeyAction::Run(EditorCommand::AddMarker)] },
        Key::I => if command { Seq::empty() } else { seq![KeyAction::Run(EditorCommand::ToggleInspector)] },
        Key::C => seq![KeyAction::Run(EditorCommand::RazorAtPlayhead)],
        Key::Delete | Key::Backspace => seq![KeyAction::Run(EditorCommand::Delete)],
        Key::G => seq![KeyAction::ToggleCurveEditor],
        Key::Plus | Key::Equals => seq![KeyAction::Run(EditorCommand::ZoomIn)],
        Key::Minus => seq![KeyAction::Run(EditorCommand::ZoomOut)],
        Key::Escape => seq![KeyAction::Dismiss],
        _ => Seq::empty(),
    }
}

/// What a key does together with ⌘ (and ⇧).
pub open spec fn command_key_actions(key: Key, shift: bool) -> Seq<KeyAction> {
    match key {
        Key::K => seq![KeyAction::Run(EditorCommand::CommandPalette)],
        Key::Z => if shift { seq![KeyAction::Run(EditorCommand::Redo)] } else { seq![KeyAction::Run(EditorCommand::Undo)] },
        Key::S => seq![KeyAction::Run(EditorCommand::SaveProject)],
        Key::O => seq![KeyAction::Run(EditorCommand::OpenProject)],
        Key::I => seq![KeyAction::Run(EditorCommand::ImportMedia)],
        Key::M => seq![KeyAction::Run(EditorCommand::ToggleAudioMixer)],
        Key::E => if shift { seq![KeyAction::Run(EditorCommand::Export)] } else { Seq::empty() },
        _ => Seq::empty(),
    }
}

/// The actions of a key press, in the order they are carried out: while the
/// command palette is open it takes the keys itself and nothing happens;
/// otherwise the key's own action comes first, then its ⌘ shortcut.
pub open spec fn key_actions_of(key: Key, command: bool, shift: bool, palette_open: bool) -> Seq<KeyAction> {
    if palette_open {
        Seq::empty()
    } else {
        plain_key_actions(key, command) + if command {
            command_key_actions(key, shift)
        } else {
            Seq::empty()
        }
    }
}

fn single(a: KeyAction) -> (v: Vec<KeyAction>)
    ensures
        v@ == seq![a],
{
    let mut v = Vec::new();
    v.push(a);
    assert(v@ =~= seq![a]);
    v
}

fn plain_actions(key: Key, command: bool) -> (r: Vec<KeyAction>)
    ensures
        r@ == plain_key_actions(key, command),
{
    match key {
        Key::Space => single(KeyAction::Run(EditorCommand::PlayPause)),
        Key::J => single(KeyAction::PlayReverse),
        Key::K => single(KeyAction::StopPlayback),
        Key::L => single(KeyAction::PlayForward),
        Key::ArrowLeft => single(KeyAction::StepBack),
        Key::ArrowRight => single(KeyAction::StepForward),
        Key::Home => single(KeyAction::JumpToStart),
        Key::End => single(KeyAction::JumpToEnd),
        Key::M => if command { Vec::new() } else { single(KeyAction::Run(EditorCommand::AddMarker)) },
        Key::I => if command { Vec::new() } else { single(KeyAction::Run(EditorCommand::ToggleInspector)) },
        Key::C => single(KeyAction::Run(EditorCommand::RazorAtPlayhead)),
        Key::Delete | Key::Backspace => single(KeyAction::Run(EditorCommand::Delete)),
        Key::G => single(KeyAction::ToggleCurveEditor),
        Key::Plus | Key::Equals => single(KeyAction::Run(EditorCommand::ZoomIn)),
        Key::Minus => single(KeyAction::Run(EditorCommand::ZoomOut)),
        Key::Escape => single(KeyAction::Dismiss),
        _ => Vec::new(),
    }
}

fn command_actions(key: Key, shift: bool) -> (r: Vec<KeyAction>)
    ensures
        r@ == command_key_actions(key, shift),
{
    match key {
        Key::K => single(KeyAction::Run(EditorCommand::CommandPalette)),
        Key::Z => if shift { single(KeyAction::Run(EditorCommand::Redo)) } else { single(KeyAction::Run(EditorCommand::Undo)) },
        Key::S => single(KeyAction::Run(EditorCommand::SaveProject)),
        Key::O => single(KeyAction::Run(EditorCommand::OpenProject)),
        Key::I => single(KeyAction::Run(EditorCommand::ImportMedia)),
        Key::M => single(KeyAction::Run(EditorCommand::ToggleAudioMixer)),
        Key::E => if shift { single(KeyAction::Run(EditorCommand::Export)) } else { Vec::new() },
        _ => Vec::new(),
    }
}

/// The actions a key press triggers, given whether ⌘ and ⇧ are held and
/// whether the command palette is open.
pub fn key_actions(key: Key, command: bool, shift: bool, palette_open: bool) -> (r: Vec<KeyAction>)
    ensures
        r@ == key_actions_of(key, command, shift, palette_open),
{
    if palette_open {
        return Vec::new();
    }
    let mut r = plain_actions(key, command);
    if command {
        let mut extra = command_actions(key, shift);
        r.append(&mut extra);
    } else {
        assert(r@ + Seq::<KeyAction>::empty() =~= r@);
    }
    r
}


/// The positions of the clips that stay on the timeline when the clip with
/// id `id` is deleted: every other clip, in timeline order.
pub fn clips_kept(ids: &Vec<usize>, id: usize) -> (kept: Vec<usize>)
    ensures
        forall|k: int| 0 <= k < kept.len() ==> (#[trigger] kept[k]) < ids.len() && ids[kept[k] as int] != id,
        forall|k: int, l: int| 0 <= k < l < kept.len() ==> kept[k] < kept[l],
        forall|i: usize| i < ids.len() && ids[i as int] != id ==> #[trigger] kept@.contains(i),
{
    let mut kept: Vec<usize> = Vec::new();
    let mut i: usize = 0;
    while i < ids.len()
        invariant
            i <= ids.len(),
            forall|k: int| 0 <= k < kept.len() ==> (#[trigger] kept[k]) < i && ids[kept[k] as int] != id,
            forall|k: int, l: int| 0 <= k < l < kept.len() ==> kept[k] < kept[l],
            forall|j: usize| j < i && ids[j as int] != id ==> #[trigger] kept@.contains(j),
        decreases ids.len() - i,
    {
        if ids[i] != id {
            let ghost before = kept@;
            kept.push(i);
            proof {
                assert forall|j: usize| j < i + 1 && ids[j as int] != id implies #[trigger] kept@.contains(j) by {
                    if j == i {
                        assert(kept@[kept.len() - 1] == i);
                    } else {
                        assert(before.contains(j));
                        let w = choose|w: int| 0 <= w < before.len() && before[w] == j;
                        assert(kept@[w] == j);
                    }
                }
            }
        }
        i = i + 1;
    }
    kept
}

/// The id for a new clip: one more than the largest id in use, or 1 when
/// there is no clip.
pub fn next_clip_id(ids: &Vec<usize>) -> (n: usize)
    requires
        forall|i: int| 0 <= i < ids.len() ==> ids[i] < usize::MAX,
    ensures
        forall|i: int| 0 <= i < ids.len() ==> ids[i] < n,
        ids.len() == 0 ==> n == 1,
        ids.len() > 0 ==> exists|i: int| 0 <= i < ids.len() && ids[i] + 1 == n,
{
    let mut max: usize = 0;
    let mut i: usize = 0;
    while i < ids.len()
        invariant
            i <= ids.len(),
            forall|j: int| 0 <= j < ids.len() ==> ids[j] < usize::MAX,
            forall|j: int| 0 <= j < i ==> ids[j] <= max,
            i == 0 ==> max == 0,
            i > 0 ==> exists|j: int| 0 <= j < i && ids[j] == max,
        decreases ids.len() - i,
    {
        if i == 0 || ids[i] > max {
            max = ids[i];
        }
        i = i + 1;
    }
    max + 1
}

} // verus!
