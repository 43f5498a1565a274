use hammerfest_autosplitter::level::World;

#[test]
fn a_world_shows_the_set_name_it_was_read_from() {
    for name in [
        "xml_adventure",
        "xml_deepnight",
        "xml_hiko",
        "xml_ayame",
        "xml_hk",
    ] {
        let world = World::from_set_name(name).expect(name);
        assert_eq!(world.set_name(), name);
    }
}
