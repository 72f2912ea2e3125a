use obentou_cli::config::{Config, ConfigError};
use obentou_cli::data::{
    format_json, parse_data, CardColor, CreateError, Data, Item, MetaData, SaveError, ShowcaseEntry,
    ValidationError,
};

fn s(x: &str) -> String {
    x.to_string()
}

fn catalog() -> MetaData {
    MetaData::new(
        vec![s("Section"), s("Note"), s("Photo")],
        vec![s("1x4"), s("2x2"), s("2x4"), s("4x4")],
        vec![
            (s("Section"), vec![s("title")]),
            (s("Note"), vec![s("text"), s("color?")]),
            (s("Photo"), vec![]),
        ],
        vec![(s("Section"), 1), (s("Note"), 2)],
    )
}

#[test]
fn format_json_lays_out_json() {
    assert_eq!(format_json("{\"a\":1}"), vec![s("{"), s("  \"a\": 1"), s("}")]);
    assert_eq!(format_json("[1,2]"), vec![s("["), s("  1,"), s("  2"), s("]")]);
    assert_eq!(format_json("{oops"), vec![s("{oops")]);
    assert_eq!(format_json("{}"), vec![s("{}")]);
}

#[test]
fn item_accessors() {
    let mut item = Item::new(s("Note"), s("2x2"), vec![s("{"), s("}")]);
    assert_eq!(item.get_title(), "Note");
    assert_eq!(item.get_shape(), "2x2");
    assert_eq!(item.get_line(1), Some(&s("}")));
    assert_eq!(item.get_line(2), None);
    item.set_title(s("Photo"));
    item.set_shape(s("4x4"));
    item.set_lines(&vec![s("{}")]);
    assert_eq!(item.get_title(), "Photo");
    assert_eq!(item.get_shape(), "4x4");
    assert_eq!(item.get_lines(), &vec![s("{}")]);
    item.set_lines_and_format(&[s("{\"b\":"), s("true}")]);
    assert_eq!(item.get_lines(), &vec![s("{"), s("  \"b\": true"), s("}")]);
}

#[test]
fn catalog_lookups() {
    let m = catalog();
    assert_eq!(m.count_cards(), 3);
    assert_eq!(m.count_shapes(), 4);
    assert_eq!(m.get_card(1), Some(&s("Note")));
    assert_eq!(m.get_card(3), None);
    assert_eq!(m.get_shape(3), Some(&s("4x4")));
    assert_eq!(m.get_shape(4), None);
    assert_eq!(m.get_field("Note"), Some(&vec![s("text"), s("color?")]));
    assert_eq!(m.get_field("Map"), None);
    assert_eq!(m.index_of_shape("2x4"), 2);
    assert_eq!(m.index_of_shape("9x9"), 0);
    assert_eq!(m.get_card_color("Note"), CardColor::Indexed(2));
    assert_eq!(m.get_card_color("Photo"), CardColor::Gray);
    assert_eq!(m.get_cards().len(), 3);
    assert_eq!(m.get_shapes().len(), 4);
    assert_eq!(m.get_fields().len(), 3);
    assert_eq!(m.get_theme().len(), 2);
}

#[test]
fn create_item_builds_skeleton() {
    let m = catalog();
    let note = m.create_item(1, 2).unwrap();
    assert_eq!(note.get_title(), "Note");
    assert_eq!(note.get_shape(), "2x4");
    assert_eq!(
        note.get_lines(),
        &vec![s("{"), s("    \"text\": \"\","), s("    \"color\": \"\""), s("}")]
    );
    let section = m.create_item(0, 3).unwrap();
    assert_eq!(section.get_shape(), "1x8");
    assert_eq!(section.get_lines(), &vec![s("{"), s("    \"title\": \"\""), s("}")]);
    let photo = m.create_item(2, 0).unwrap();
    assert_eq!(photo.get_lines(), &vec![s("{"), s("}")]);
}

#[test]
fn create_item_errors() {
    let m = catalog();
    assert_eq!(m.create_item(1, 4).unwrap_err(), CreateError::UnknownShape);
    assert_eq!(m.create_item(3, 0).unwrap_err(), CreateError::UnknownCardType);
    let bare = MetaData::new(vec![s("Section"), s("Map")], vec![s("2x2")], vec![], vec![]);
    assert_eq!(bare.create_item(1, 0).unwrap_err(), CreateError::NoFields);
}

#[test]
fn validation_outcomes() {
    let m = catalog();
    assert_eq!(m.is_valid("{\"text\": 1}", "Note"), Ok(()));
    assert_eq!(m.is_valid("{\"text\": \"\", \"color\": \"red\"}", "Note"), Ok(()));
    assert_eq!(m.is_valid("{\"color\": \"red\"}", "Note"), Err(ValidationError::MissingField));
    assert_eq!(m.is_valid("{\"text\": 1", "Note"), Err(ValidationError::InvalidJson));
    assert_eq!(m.is_valid("[\"text\"]", "Photo"), Err(ValidationError::InvalidJson));
    assert_eq!(m.is_valid("{}", "Map"), Err(ValidationError::UnknownCardType));
    assert_eq!(m.is_valid("{}", "Photo"), Ok(()));
    assert_eq!(ValidationError::MissingField.message(), "Missing necessary field!");
}

#[test]
fn parse_data_builds_store() {
    let m = catalog();
    let showcase = vec![
        ShowcaseEntry { title: s("Note"), shape: Some(s("2x4")), content: s("{\"text\":\"hi\",\"shape\":\"2x4\"}") },
        ShowcaseEntry { title: s("Photo"), shape: None, content: s("{}") },
        ShowcaseEntry { title: s("Section"), shape: Some(s("4x4")), content: s("{\"title\":\"A\"}") },
    ];
    let items = parse_data(&m, "{\"name\":\"me\"}", &showcase);
    assert_eq!(items.len(), 4);
    assert_eq!(items[0].get_title(), "Profile");
    assert_eq!(items[0].get_shape(), "4x4");
    assert_eq!(items[0].get_lines(), &vec![s("{"), s("  \"name\": \"me\""), s("}")]);
    assert_eq!(items[1].get_shape(), "2x4");
    assert_eq!(items[2].get_shape(), "2x2");
    assert_eq!(items[3].get_shape(), "1x8");
    assert_eq!(items[3].get_title(), "Section");
}

#[test]
fn export_checks_every_card() {
    let m = catalog();
    let good = Data {
        metadata: m.clone(),
        items: vec![
            Item::new(s("Profile"), s("4x4"), vec![s("{"), s("\"a\": 1}")]),
            Item::new(s("Note"), s("2x2"), vec![s("{\"text\": 2}")]),
        ],
    };
    let (profile, entries) = good.export().unwrap();
    assert_eq!(profile, "{\n\"a\": 1}");
    assert_eq!(entries, vec![(s("Note"), s("{\"text\": 2}"))]);

    let bad = Data {
        metadata: m.clone(),
        items: vec![
            Item::new(s("Profile"), s("4x4"), vec![s("{}")]),
            Item::new(s("Note"), s("2x2"), vec![s("{}")]),
            Item::new(s("Note"), s("2x2"), vec![s("{text")]),
        ],
    };
    assert_eq!(bad.export().unwrap_err(), SaveError::InvalidJson(2));
    let empty = Data { metadata: m, items: vec![] };
    assert_eq!(empty.export().unwrap_err(), SaveError::NoProfile);
}

#[test]
fn config_picks_named_theme() {
    let themes = vec![(s("plain"), vec![7u8]), (s("mondrian"), vec![9u8, 12u8])];
    let config = Config::from_tables(
        vec![s("Section"), s("Note"), s("Photo")],
        vec![s("2x2")],
        vec![(s("Note"), vec![])],
        &themes,
    )
    .unwrap();
    let m = config.get_metadata();
    assert_eq!(m.get_card_color("Section"), CardColor::Indexed(9));
    assert_eq!(m.get_card_color("Note"), CardColor::Indexed(12));
    assert_eq!(m.get_card_color("Photo"), CardColor::Gray);
    let missing = Config::from_tables(vec![], vec![], vec![], &vec![(s("plain"), vec![1u8])]);
    assert_eq!(missing.err(), Some(ConfigError::NoSuchTheme));
}

#[test]
fn check_keys_on_given_keys() {
    let m = catalog();
    assert_eq!(m.check_keys(&Some(vec![s("text")]), "Note"), Ok(()));
    assert_eq!(m.check_keys(&Some(vec![s("color")]), "Note"), Err(ValidationError::MissingField));
    assert_eq!(m.check_keys(&Some(vec![]), "Photo"), Ok(()));
    assert_eq!(m.check_keys(&None, "Photo"), Err(ValidationError::InvalidJson));
    assert_eq!(m.check_keys(&Some(vec![s("title")]), "Map"), Err(ValidationError::UnknownCardType));
}
