use obentou_cli::data::{Item, MetaData};
use obentou_cli::session::{Effect, Key, Session, TuiState};

fn s(x: &str) -> String {
    x.to_string()
}

fn catalog() -> MetaData {
    MetaData::new(
        vec![s("Section"), s("Note"), s("Photo")],
        vec![s("1x4"), s("2x2"), s("2x4")],
        vec![
            (s("Section"), vec![s("title")]),
            (s("Note"), vec![s("text"), s("color?")]),
            (s("Photo"), vec![s("url")]),
        ],
        vec![],
    )
}

fn card(title: &str, shape: &str, body: &str) -> Item {
    Item::new(s(title), s(shape), vec![s(body)])
}

fn five_cards() -> Vec<Item> {
    vec![
        card("Profile", "4x4", "{\"name\": \"me\"}"),
        card("Note", "2x2", "{\"text\": \"one\"}"),
        card("Note", "2x4", "{\"text\": \"two\"}"),
        card("Section", "1x8", "{\"title\": \"three\"}"),
        card("Photo", "2x2", "{\"url\": \"four\"}"),
    ]
}

fn press(session: &mut Session, key: Key) -> Effect {
    session.process_key_event(key, &[])
}

fn select(session: &mut Session, index: usize) {
    while session.get_state() != TuiState::Select(index) {
        press(session, Key::Down);
    }
}

fn titles(session: &Session) -> Vec<String> {
    session.get_items().iter().map(|i| i.get_title().clone()).collect()
}

#[test]
fn new_session_selects_profile() {
    let session = Session::new(catalog(), five_cards());
    assert_eq!(session.get_state(), TuiState::Select(0));
    assert_eq!(session.get_buffer(), &vec![s("{\"name\": \"me\"}")]);
    assert_eq!(session.get_oops_count(), 0);
    assert!(session.is_well_formed());
}

#[test]
fn empty_store_gets_placeholder_profile() {
    let session = Session::new(catalog(), vec![]);
    assert_eq!(session.get_items().len(), 1);
    assert_eq!(session.get_items()[0].get_title(), "Profile");
    assert_eq!(session.get_buffer(), &vec![s("{}")]);
}

#[test]
fn delete_then_confirm_scenario() {
    let mut session = Session::new(catalog(), five_cards());
    select(&mut session, 2);
    assert_eq!(press(&mut session, Key::Char('d')), Effect::Nothing);
    assert_eq!(session.get_state(), TuiState::Delete(2));
    assert_eq!(press(&mut session, Key::Enter), Effect::LoadBuffer);
    assert_eq!(session.get_items().len(), 4);
    assert_eq!(session.get_state(), TuiState::Select(1));
    assert_eq!(session.get_buffer(), &vec![s("{\"text\": \"one\"}")]);
    assert_eq!(titles(&session), vec![s("Profile"), s("Note"), s("Section"), s("Photo")]);
}

#[test]
fn delete_cancel_keeps_card() {
    let mut session = Session::new(catalog(), five_cards());
    select(&mut session, 3);
    press(&mut session, Key::Char('D'));
    press(&mut session, Key::Esc);
    assert_eq!(session.get_state(), TuiState::Select(3));
    assert_eq!(session.get_items().len(), 5);
}

#[test]
fn create_full_row_card_scenario() {
    let mut session = Session::new(catalog(), five_cards());
    assert_eq!(press(&mut session, Key::Char('n')), Effect::Nothing);
    assert_eq!(session.get_state(), TuiState::Create(0, 0, None));
    assert_eq!(press(&mut session, Key::Enter), Effect::LoadBuffer);
    assert_eq!(session.get_state(), TuiState::Edit(1));
    let created = &session.get_items()[1];
    assert_eq!(created.get_title(), "Section");
    assert_eq!(created.get_shape(), "1x8");
    let skeleton = vec![s("{"), s("    \"title\": \"\""), s("}")];
    assert_eq!(created.get_lines(), &skeleton);
    assert_eq!(session.get_buffer(), &skeleton);
    assert_eq!(session.get_items().len(), 6);
}

#[test]
fn create_with_shape_choice() {
    let mut session = Session::new(catalog(), five_cards());
    select(&mut session, 2);
    press(&mut session, Key::Char('N'));
    press(&mut session, Key::Down);
    press(&mut session, Key::Down);
    press(&mut session, Key::Down);
    assert_eq!(session.get_state(), TuiState::Create(2, 2, None));
    press(&mut session, Key::Up);
    assert_eq!(session.get_state(), TuiState::Create(2, 1, None));
    press(&mut session, Key::Enter);
    assert_eq!(session.get_state(), TuiState::Create(2, 1, Some(0)));
    press(&mut session, Key::Down);
    press(&mut session, Key::Down);
    press(&mut session, Key::Down);
    assert_eq!(session.get_state(), TuiState::Create(2, 1, Some(2)));
    press(&mut session, Key::Enter);
    assert_eq!(session.get_state(), TuiState::Edit(3));
    assert_eq!(session.get_items()[3].get_title(), "Note");
    assert_eq!(session.get_items()[3].get_shape(), "2x4");
}

#[test]
fn create_cancel_returns_to_select() {
    let mut session = Session::new(catalog(), five_cards());
    select(&mut session, 1);
    press(&mut session, Key::Char('n'));
    press(&mut session, Key::Up);
    assert_eq!(session.get_state(), TuiState::Create(1, 0, None));
    press(&mut session, Key::Esc);
    assert_eq!(session.get_state(), TuiState::Select(1));
    assert_eq!(session.get_items().len(), 5);
}

#[test]
fn commit_with_missing_field_stays_in_edit() {
    let mut session = Session::new(catalog(), five_cards());
    select(&mut session, 1);
    press(&mut session, Key::Enter);
    assert_eq!(session.get_state(), TuiState::Edit(1));
    let editor = vec![s("{\"color\": \"red\"}")];
    assert_eq!(session.process_key_event(Key::Esc, &editor), Effect::Nothing);
    assert_eq!(session.get_state(), TuiState::Edit(1));
    assert_eq!(session.get_oops_count(), 1);
    assert_eq!(session.get_items()[1].get_lines(), &vec![s("{\"text\": \"one\"}")]);
    let broken = vec![s("{\"text\": ")];
    session.process_key_event(Key::Esc, &broken);
    assert_eq!(session.get_state(), TuiState::Edit(1));
    assert_eq!(session.get_oops_count(), 2);
    assert_eq!(titles(&session).len(), 5);
}

#[test]
fn commit_reformats_and_keeps_value() {
    let mut session = Session::new(catalog(), five_cards());
    select(&mut session, 1);
    press(&mut session, Key::Enter);
    assert_eq!(session.process_key_event(Key::Char('x'), &[]), Effect::ForwardKey);
    let editor = vec![s("{\"text\":"), s("\"new\", \"n\": [1, 2.5, null]}")];
    session.process_key_event(Key::Esc, &editor);
    assert_eq!(session.get_state(), TuiState::Select(1));
    assert_eq!(session.get_oops_count(), 0);
    let stored = session.get_items()[1].get_lines().join("\n");
    let before: serde_json::Value = serde_json::from_str(&editor.join("\n")).unwrap();
    let after: serde_json::Value = serde_json::from_str(&stored).unwrap();
    assert_eq!(before, after);
    assert_eq!(stored, serde_json::to_string_pretty(&before).unwrap());
}

#[test]
fn profile_is_not_deleted_or_reshaped() {
    let mut session = Session::new(catalog(), five_cards());
    press(&mut session, Key::Char('d'));
    assert_eq!(session.get_state(), TuiState::Select(0));
    press(&mut session, Key::Char('r'));
    assert_eq!(session.get_items()[0].get_shape(), "4x4");
    press(&mut session, Key::Char('j'));
    assert_eq!(session.get_state(), TuiState::Select(0));
    assert_eq!(session.get_items()[0].get_title(), "Profile");
}

#[test]
fn reshape_cycles_shapes() {
    let mut session = Session::new(catalog(), five_cards());
    select(&mut session, 2);
    press(&mut session, Key::Char('r'));
    assert_eq!(session.get_items()[2].get_shape(), "1x4");
    press(&mut session, Key::Char('R'));
    assert_eq!(session.get_items()[2].get_shape(), "2x2");
    select(&mut session, 3);
    press(&mut session, Key::Char('r'));
    assert_eq!(session.get_items()[3].get_shape(), "1x8");
}

#[test]
fn moving_cards_swaps_neighbours() {
    let mut session = Session::new(catalog(), five_cards());
    select(&mut session, 1);
    press(&mut session, Key::Char('j'));
    assert_eq!(session.get_state(), TuiState::Select(2));
    assert_eq!(titles(&session)[1..3], [s("Note"), s("Note")]);
    assert_eq!(session.get_items()[2].get_shape(), "2x2");
    press(&mut session, Key::Char('K'));
    assert_eq!(session.get_state(), TuiState::Select(1));
    assert_eq!(session.get_items()[1].get_shape(), "2x2");
    press(&mut session, Key::Char('k'));
    assert_eq!(session.get_state(), TuiState::Select(1));
    select(&mut session, 4);
    press(&mut session, Key::Char('j'));
    assert_eq!(session.get_state(), TuiState::Select(4));
}

#[test]
fn cursor_moves_within_bounds() {
    let mut session = Session::new(catalog(), five_cards());
    assert_eq!(press(&mut session, Key::Up), Effect::Nothing);
    assert_eq!(press(&mut session, Key::Down), Effect::LoadBuffer);
    assert_eq!(session.get_state(), TuiState::Select(1));
    assert_eq!(session.get_buffer(), &vec![s("{\"text\": \"one\"}")]);
    select(&mut session, 4);
    assert_eq!(press(&mut session, Key::Down), Effect::Nothing);
    assert_eq!(session.get_state(), TuiState::Select(4));
}

#[test]
fn quit_ends_session() {
    let mut session = Session::new(catalog(), five_cards());
    press(&mut session, Key::Char('q'));
    assert_eq!(session.get_state(), TuiState::Quit);
    press(&mut session, Key::Down);
    assert_eq!(session.get_state(), TuiState::Quit);
    assert_eq!(session.into_data().items.len(), 5);
}

#[test]
fn preview_skips_profile() {
    let session = Session::new(catalog(), five_cards());
    let cells = session.preview_layout();
    assert_eq!(cells.len(), 4);
    assert_eq!(cells[0].get_card_type(), "Note");
    assert_eq!((cells[0].get_start_row(), cells[0].get_start_col()), (0, 0));
    assert_eq!((cells[1].get_start_row(), cells[1].get_start_col()), (0, 2));
    assert_eq!((cells[2].get_start_row(), cells[2].get_height(), cells[2].get_width()), (2, 1, 8));
    assert_eq!((cells[3].get_start_row(), cells[3].get_start_col()), (3, 0));
}

#[test]
fn editor_status_in_edit_only() {
    let mut session = Session::new(catalog(), five_cards());
    assert_eq!(session.editor_status(&[s("{}")]), None);
    select(&mut session, 1);
    press(&mut session, Key::Enter);
    assert_eq!(session.editor_status(&[s("{\"text\": 1}")]), Some(Ok(())));
    assert!(session.editor_status(&[s("{}")]).unwrap().is_err());
}
