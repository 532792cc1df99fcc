use chat_server::parse::MessagePatterns;
use chat_server::protocol::Message;
use chat_server::roster::{
    blast_out, getNickname, get_nickname, remove_connection, remove_dead_connections, Connection,
    NicknameStep, PeerAddr,
};

fn v4(last: u8, port: u16) -> PeerAddr {
    PeerAddr::V4 { ip: u32::from_be_bytes([127, 0, 0, last]), port }
}

fn conn(peer: Option<PeerAddr>, nick: &str) -> Connection {
    Connection { peer, nickname: nick.to_string() }
}

#[test]
fn blast_out_reaches_other_named_users() {
    let me = v4(1, 5000);
    let conns = vec![
        conn(Some(me), "alice"),
        conn(Some(v4(2, 5001)), "bob"),
        conn(Some(v4(3, 5002)), ""),
        conn(None, "carol"),
        conn(Some(v4(4, 5003)), "dave"),
        conn(Some(me), ""),
    ];
    let b = blast_out(&conns, &me, &"alice".to_string(), &"hi".to_string());
    assert_eq!(b.recipients, vec![1, 4]);
    assert_eq!(b.message, Message::CHAT("hi".to_string()));
    assert_eq!(b.nickname, "alice");
}

#[test]
fn blast_out_compares_whole_addresses() {
    let me = PeerAddr::V6 { ip: 1, port: 80, flowinfo: 0, scope_id: 0 };
    let conns = vec![
        conn(Some(PeerAddr::V6 { ip: 1, port: 80, flowinfo: 0, scope_id: 1 }), "x"),
        conn(Some(PeerAddr::V6 { ip: 1, port: 81, flowinfo: 0, scope_id: 0 }), "y"),
        conn(Some(me), "z"),
        conn(Some(v4(1, 80)), "w"),
    ];
    let b = blast_out(&conns, &me, &"z".to_string(), &"m".to_string());
    assert_eq!(b.recipients, vec![0, 1, 3]);
}

#[test]
fn blast_out_to_nobody() {
    let me = v4(1, 1);
    let b = blast_out(&vec![], &me, &"a".to_string(), &"m".to_string());
    assert!(b.recipients.is_empty());
}

#[test]
fn remove_connection_keeps_the_others_in_order() {
    let a = v4(1, 1);
    let b = v4(2, 2);
    let conns = vec![conn(Some(a), ""), conn(Some(b), "bob"), conn(Some(a), "al"), conn(Some(v4(3, 3)), "c")];
    assert_eq!(remove_connection(&conns, &a), vec![1, 3]);
    assert_eq!(remove_connection(&conns, &v4(9, 9)), vec![0, 1, 2, 3]);
}

#[test]
fn remove_dead_connections_keeps_healthy_ones() {
    assert_eq!(remove_dead_connections(&vec![true, false, true, false]), vec![0, 2]);
    assert_eq!(remove_dead_connections(&vec![]), Vec::<usize>::new());
}

#[test]
fn nickname_steps() {
    let names = vec!["".to_string(), "bob".to_string()];
    assert_eq!(
        get_nickname(&names, Some(Message::NICK("carol".to_string()))),
        NicknameStep::Accept("carol".to_string())
    );
    assert_eq!(get_nickname(&names, Some(Message::NICK("bob".to_string()))), NicknameStep::Retry);
    assert_eq!(get_nickname(&names, Some(Message::NICK(String::new()))), NicknameStep::Retry);
    assert_eq!(get_nickname(&names, Some(Message::BYE)), NicknameStep::Close);
    assert_eq!(get_nickname(&names, None), NicknameStep::Close);
    assert_eq!(get_nickname(&names, Some(Message::CHAT("x".to_string()))), NicknameStep::Wait);
    assert_eq!(get_nickname(&names, Some(Message::HELLO)), NicknameStep::Wait);
}

#[test]
fn granted_nicknames_stay_distinct() {
    let mut names = vec!["".to_string(), "".to_string()];
    for wanted in ["ann", "ben", "ann", "", "ben", "cy"] {
        if let NicknameStep::Accept(n) = get_nickname(&names, Some(Message::NICK(wanted.to_string()))) {
            names.push(n);
        }
    }
    assert_eq!(names, vec!["", "", "ann", "ben", "cy"]);
}

#[test]
fn get_nickname_from_text() {
    let p = MessagePatterns::new().unwrap();
    let mut names = vec!["bob".to_string()];
    assert_eq!(getNickname(&p, b"HELLO", &mut names), None);
    assert_eq!(getNickname(&p, &[0xFF, 0xFE], &mut names), None);
    assert_eq!(getNickname(&p, b"junk", &mut names), None);
    assert_eq!(names, vec!["bob".to_string()]);
    // the text form carries no name: the request is for the empty name
    assert_eq!(getNickname(&p, b"NICKsam", &mut names), Some(String::new()));
    assert_eq!(names, vec!["bob".to_string(), String::new()]);
    assert_eq!(getNickname(&p, b"NICKsam", &mut names), None);
    assert_eq!(names.len(), 2);
}

fn remove(conns: &Vec<Connection>, target: &PeerAddr) -> Vec<Connection> {
    remove_connection(conns, target).into_iter().map(|i| conns[i].clone()).collect()
}

fn pairs(conns: &Vec<Connection>) -> Vec<(Option<PeerAddr>, String)> {
    conns.iter().map(|c| (c.peer, c.nickname.clone())).collect()
}

#[test]
fn removing_twice_is_removing_once() {
    let a = v4(1, 1);
    let conns = vec![conn(Some(a), "a"), conn(Some(v4(2, 2)), "b"), conn(Some(a), "")];
    let once = remove(&conns, &a);
    let twice = remove(&once, &a);
    assert_eq!(pairs(&once), pairs(&twice));
    assert_eq!(pairs(&once), vec![(Some(v4(2, 2)), "b".to_string())]);
}

#[test]
fn removals_commute() {
    let a = v4(1, 1);
    let b = v4(2, 2);
    let conns = vec![conn(Some(a), "a"), conn(Some(b), "b"), conn(Some(v4(3, 3)), "c"), conn(Some(b), "")];
    let ab = remove(&remove(&conns, &a), &b);
    let ba = remove(&remove(&conns, &b), &a);
    assert_eq!(pairs(&ab), pairs(&ba));
    assert_eq!(pairs(&ab), vec![(Some(v4(3, 3)), "c".to_string())]);
}
