use lib::models::{
    contains_id, find_channel, find_channel_by_name, find_team, find_team_by_name, find_thread,
    find_user, find_user_by_name, generate_uuid, put_channel, put_team, put_thread, put_user,
    Channel, Team, Thread, User,
};

fn user(uuid: &str, name: &str) -> User {
    User { uuid: uuid.into(), name: name.into(), is_connected: false }
}

fn team(uuid: &str, name: &str) -> Team {
    Team { uuid: uuid.into(), name: name.into(), description: String::new(), subscribers: vec![], channels: vec![] }
}

#[test]
fn generated_identifiers_are_lower_case_hexadecimal() {
    let u = generate_uuid();
    assert!(!u.is_empty());
    assert!(u.chars().all(|c| c.is_ascii_digit() || ('a'..='f').contains(&c)));
    assert!(u.len() == 1 || !u.starts_with('0'));
}

#[test]
fn lookups_find_the_first_match() {
    let users = vec![user("1", "a"), user("2", "b"), user("3", "b")];
    assert_eq!(find_user(&users, "2"), Some(1));
    assert_eq!(find_user(&users, "9"), None);
    assert_eq!(find_user_by_name(&users, "b"), Some(1));
    assert_eq!(find_user_by_name(&users, "z"), None);
    let teams = vec![team("t1", "x"), team("t2", "y")];
    assert_eq!(find_team(&teams, "t2"), Some(1));
    assert_eq!(find_team_by_name(&teams, "x"), Some(0));
    assert_eq!(find_team_by_name(&teams, "q"), None);
    let chans = vec![Channel { uuid: "c".into(), name: "n".into(), description: String::new(), threads: vec![] }];
    assert_eq!(find_channel(&chans, "c"), Some(0));
    assert_eq!(find_channel_by_name(&chans, "n"), Some(0));
    assert_eq!(find_channel(&chans, "n"), None);
    let threads = vec![Thread { uuid: "h".into(), title: String::new(), message: String::new(), author_uuid: String::new(), replies: vec![], timestamp: 0 }];
    assert_eq!(find_thread(&threads, "h"), Some(0));
    assert_eq!(find_thread(&threads, "x"), None);
    assert!(contains_id(&vec!["a".to_string(), "b".to_string()], "b"));
    assert!(!contains_id(&vec![], "b"));
}

#[test]
fn put_replaces_in_place_or_appends() {
    let mut users = vec![user("1", "a"), user("2", "b")];
    put_user(&mut users, user("1", "renamed"));
    assert_eq!(users.len(), 2);
    assert_eq!(users[0].name, "renamed");
    put_user(&mut users, user("3", "c"));
    assert_eq!(users.len(), 3);
    assert_eq!(users[2].uuid, "3");
    let mut teams = vec![team("t", "x")];
    put_team(&mut teams, team("t", "y"));
    assert_eq!((teams.len(), teams[0].name.as_str()), (1, "y"));
    let mut chans: Vec<Channel> = vec![];
    put_channel(&mut chans, Channel { uuid: "c".into(), name: "n".into(), description: String::new(), threads: vec![] });
    assert_eq!(chans.len(), 1);
    let mut threads: Vec<Thread> = vec![];
    put_thread(&mut threads, Thread { uuid: "h".into(), title: "t".into(), message: String::new(), author_uuid: String::new(), replies: vec![], timestamp: 3 });
    put_thread(&mut threads, Thread { uuid: "h".into(), title: "t2".into(), message: String::new(), author_uuid: String::new(), replies: vec![], timestamp: 4 });
    assert_eq!((threads.len(), threads[0].title.as_str()), (1, "t2"));
}
