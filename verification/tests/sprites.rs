use game_core::sprites::{Data, Frame, FrameData, FrameTag, Metadata, Rect, Sprites};

fn frame(x: u32, duration: u32) -> FrameData {
    FrameData { duration, frame: Frame { x, y: 0, w: 16, h: 16 } }
}

fn data(frames: Vec<FrameData>, tags: Vec<FrameTag>) -> Data {
    Data { frames, meta: Metadata { image: "sheet.png".to_string(), frame_tags: tags } }
}

#[test]
fn sheet_without_tags_gets_default_animation() {
    let d = data(vec![frame(0, 100), frame(16, 120), frame(32, 80)], vec![]);
    let sheet = d.as_sprite_sheet("knight", 7u8);
    assert_eq!(sheet.name(), "knight");
    assert_eq!(*sheet.image(), 7u8);
    assert_eq!(sheet.frame_count(), 3);
    assert_eq!(sheet.frame(1).rect, Rect { x: 16, y: 0, w: 16, h: 16 });
    assert_eq!(sheet.frame(2).duration, 80);
    assert_eq!(sheet.tag_count(), 1);
    assert_eq!(sheet.tag(0).name(), "default");
    assert_eq!(sheet.tag(0).start_frame(), 0);
    assert_eq!(sheet.tag(0).end_frame(), 2);
}

#[test]
fn sheet_keeps_exported_tags() {
    let tags = vec![
        FrameTag { name: "idle".to_string(), from: 0, to: 1 },
        FrameTag { name: "run".to_string(), from: 2, to: 3 },
    ];
    let d = data(vec![frame(0, 1), frame(1, 1), frame(2, 1), frame(3, 1)], tags);
    let sheet = d.as_sprite_sheet("hero", ());
    assert_eq!(sheet.tag_count(), 2);
    assert_eq!(sheet.tag(1).name(), "run");
    assert_eq!(sheet.tag(1).start_frame(), 2);
    assert_eq!(sheet.tag(1).end_frame(), 3);
}

#[test]
fn load_find_and_step_frames() {
    let mut sprites: Sprites<&str> = Sprites::new();
    assert_eq!(sprites.find_by_name("knight"), None);
    let tags = vec![FrameTag { name: "walk".to_string(), from: 1, to: 3 }];
    let d1 = data(vec![frame(0, 50), frame(1, 60), frame(2, 70), frame(3, 80)], tags);
    let h1 = sprites.load_sprite_sheet("test_sprite", &d1, "img1");
    let d2 = data(vec![frame(0, 10)], vec![]);
    let h2 = sprites.load_sprite_sheet("knight", &d2, "img2");
    assert_eq!((h1, h2), (0, 1));
    assert_eq!(sprites.len(), 2);
    assert_eq!(sprites.find_by_name("knight"), Some(1));
    assert_eq!(sprites.find_by_name("test_sprite"), Some(0));
    assert_eq!(sprites.find_by_name("missing"), None);
    assert_eq!(*sprites.get(h2).image(), "img2");
    assert_eq!(sprites.frame_duration(h1, 2), 70);
    assert_eq!(sprites.next_frame(h1, 0, 1), 2);
    assert_eq!(sprites.next_frame(h1, 0, 3), 1);
    assert_eq!(sprites.next_frame(h2, 0, 0), 0);
}
