use race_server::client::UserData;
use race_server::ui::{sort_by_id, Communicator, Key, KeyPress, ServerEvent, UpdateResult};

fn entry(id: u8, name: &str) -> (u8, UserData) {
    (id, UserData { username: name.to_string(), roles: String::new() })
}

fn names(list: &Vec<(u8, UserData)>) -> Vec<(u8, String)> {
    list.iter().map(|e| (e.0, e.1.username.clone())).collect()
}

#[test]
fn control_c_leaves_the_dashboard() {
    let mut c = Communicator::new();
    let press = |key, control| KeyPress { key, control };
    assert_eq!(c.handle_input(press(Key::Char('c'), true)), UpdateResult::Exit);
    assert_eq!(c.handle_input(press(Key::Char('c'), false)), UpdateResult::Continue);
    assert_eq!(c.handle_input(press(Key::Char('C'), true)), UpdateResult::Continue);
    assert_eq!(c.handle_input(press(Key::Char('x'), true)), UpdateResult::Continue);
    assert_eq!(c.handle_input(press(Key::Other, true)), UpdateResult::Continue);
    assert!(c.id_name_list.is_empty());
}

#[test]
fn the_player_list_is_kept_in_id_order() {
    let mut c = Communicator::new();
    assert_eq!(c.tick(None), UpdateResult::Continue);
    assert!(c.id_name_list.is_empty());
    let update = ServerEvent::ClientListUpdate(vec![entry(2, "c"), entry(0, "a"), entry(1, "b")]);
    assert_eq!(c.tick(Some(update)), UpdateResult::Continue);
    assert_eq!(
        names(&c.id_name_list),
        vec![(0, "a".to_string()), (1, "b".to_string()), (2, "c".to_string())]
    );
    c.id_name_list.push(entry(1, "late"));
    c.id_name_list.insert(0, entry(9, "first"));
    assert_eq!(c.tick(None), UpdateResult::Continue);
    assert_eq!(
        names(&c.id_name_list),
        vec![
            (0, "a".to_string()),
            (1, "b".to_string()),
            (1, "late".to_string()),
            (2, "c".to_string()),
            (9, "first".to_string())
        ]
    );
}

#[test]
fn sorting_by_id_agrees_with_the_stable_sort() {
    let ids = [5u8, 3, 5, 0, 255, 3, 3, 7, 0, 5];
    let list: Vec<(u8, UserData)> =
        ids.iter().enumerate().map(|(i, id)| entry(*id, &format!("{}", i))).collect();
    let mut expected = list.clone();
    expected.sort_by_key(|e| e.0);
    assert_eq!(names(&sort_by_id(list)), names(&expected));
    assert!(sort_by_id(Vec::new()).is_empty());
}
