use proedit::editor::{parse_command, EditHistory, EditorCommand, key_actions, Key, KeyAction, clips_kept, next_clip_id};

#[test]
fn undo_restores_the_state_before_an_edit_and_redo_reapplies_it() {
    let mut h: EditHistory<Vec<u32>> = EditHistory::new();
    let mut clips = vec![1, 2];
    h.push_undo(clips.clone());
    clips.push(3);
    assert!(h.dirty());
    assert!(h.undo(&mut clips));
    assert_eq!(clips, vec![1, 2]);
    assert!(h.redo(&mut clips));
    assert_eq!(clips, vec![1, 2, 3]);
    assert!(!h.redo(&mut clips));
    assert_eq!(clips, vec![1, 2, 3]);
}

#[test]
fn a_new_edit_drops_the_redo_history() {
    let mut h: EditHistory<u8> = EditHistory::new();
    let mut s = 0u8;
    h.push_undo(s);
    s = 1;
    assert!(h.undo(&mut s));
    assert_eq!(s, 0);
    h.push_undo(s);
    s = 5;
    assert!(!h.redo(&mut s));
    assert_eq!(s, 5);
}

#[test]
fn undo_history_keeps_the_newest_two_hundred() {
    let mut h: EditHistory<u32> = EditHistory::new();
    for i in 0..250u32 {
        h.push_undo(i);
    }
    let mut s = 999u32;
    let mut seen = Vec::new();
    while h.undo(&mut s) {
        seen.push(s);
    }
    assert_eq!(seen.len(), 200);
    assert_eq!(seen[0], 249);
    assert_eq!(*seen.last().unwrap(), 50);
}

#[test]
fn saving_and_resetting_clear_the_changed_mark() {
    let mut h: EditHistory<u8> = EditHistory::new();
    assert!(!h.dirty());
    h.push_undo(1);
    h.mark_saved();
    assert!(!h.dirty());
    let mut s = 2;
    assert!(h.undo(&mut s));
    assert!(h.dirty());
    h.reset();
    assert!(!h.dirty());
    assert!(!h.undo(&mut s));
}

#[test]
fn command_names_and_aliases() {
    assert_eq!(parse_command("Undo"), EditorCommand::Undo);
    assert_eq!(parse_command("Split at Playhead"), EditorCommand::RazorAtPlayhead);
    assert_eq!(parse_command("Ripple Delete"), EditorCommand::Delete);
    assert_eq!(parse_command("Export Project"), EditorCommand::Export);
    assert_eq!(parse_command("Scene Detect"), EditorCommand::DetectScenes);
    assert_eq!(parse_command("Upscale 4K"), EditorCommand::Upscale4K);
    assert_eq!(parse_command("undo"), EditorCommand::Unknown);
    assert!(EditorCommand::RazorAtPlayhead.records_undo());
    assert!(!EditorCommand::ZoomIn.records_undo());
}

#[test]
fn keys_trigger_their_shortcuts() {
    assert_eq!(key_actions(Key::Space, false, false, false), vec![KeyAction::Run(EditorCommand::PlayPause)]);
    assert_eq!(key_actions(Key::J, false, false, false), vec![KeyAction::PlayReverse]);
    assert_eq!(key_actions(Key::C, false, false, false), vec![KeyAction::Run(EditorCommand::RazorAtPlayhead)]);
    assert_eq!(key_actions(Key::Backspace, false, false, false), vec![KeyAction::Run(EditorCommand::Delete)]);
    assert_eq!(key_actions(Key::Other, false, false, false), vec![]);
}

#[test]
fn command_shortcuts() {
    assert_eq!(key_actions(Key::Z, true, false, false), vec![KeyAction::Run(EditorCommand::Undo)]);
    assert_eq!(key_actions(Key::Z, true, true, false), vec![KeyAction::Run(EditorCommand::Redo)]);
    assert_eq!(key_actions(Key::I, true, false, false), vec![KeyAction::Run(EditorCommand::ImportMedia)]);
    assert_eq!(key_actions(Key::I, false, false, false), vec![KeyAction::Run(EditorCommand::ToggleInspector)]);
    assert_eq!(key_actions(Key::E, true, false, false), vec![]);
    assert_eq!(key_actions(Key::E, true, true, false), vec![KeyAction::Run(EditorCommand::Export)]);
    // K stops playback whether or not it opens the palette as well.
    assert_eq!(
        key_actions(Key::K, true, false, false),
        vec![KeyAction::StopPlayback, KeyAction::Run(EditorCommand::CommandPalette)]
    );
}

#[test]
fn open_palette_takes_the_keys() {
    assert_eq!(key_actions(Key::Space, false, false, true), vec![]);
    assert_eq!(key_actions(Key::Z, true, false, true), vec![]);
}

#[test]
fn deleting_a_clip_keeps_the_others_in_order() {
    assert_eq!(clips_kept(&vec![4, 7, 9, 7], 7), vec![0, 2]);
    assert_eq!(clips_kept(&vec![4, 7], 5), vec![0, 1]);
    assert_eq!(clips_kept(&vec![], 5), Vec::<usize>::new());
}

#[test]
fn new_clip_ids_follow_the_largest() {
    assert_eq!(next_clip_id(&vec![]), 1);
    assert_eq!(next_clip_id(&vec![3, 9, 2]), 10);
    assert_eq!(next_clip_id(&vec![0]), 1);
}
