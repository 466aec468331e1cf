use macmush::world_file::WorldFile;

#[test]
fn test_empty_world_file() {
    let world_file = WorldFile::new();
    assert!(world_file.world.is_none());
    assert!(world_file.triggers.is_none());
}

#[test]
fn world_file_text_starts_with_header() {
    let text = WorldFile::frame_xml("<muclient/>");
    assert!(text.starts_with("<?xml version=\"1.0\" encoding=\"utf-8\"?>\n<!DOCTYPE muclient>\n"));
    assert!(text.ends_with("\n\n<muclient/>"));
}
