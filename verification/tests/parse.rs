use chat_server::parse::{MessagePatterns, PARSE_ERROR};
use chat_server::protocol::Message;

#[test]
fn patterns_compile() {
    assert!(MessagePatterns::new().is_ok());
}

#[test]
fn parse_each_keyword() {
    let p = MessagePatterns::new().unwrap();
    assert_eq!(p.parse("HELLO"), Ok(Message::HELLO));
    assert_eq!(p.parse("NICKbob"), Ok(Message::NICK(String::new())));
    assert_eq!(p.parse("NIC"), Ok(Message::NICK(String::new())));
    assert_eq!(p.parse("say BYE now"), Ok(Message::BYE));
    assert_eq!(p.parse("READY"), Ok(Message::READY));
    assert_eq!(p.parse("RETRY"), Ok(Message::RETRY));
    assert_eq!(p.parse("CHAT hi"), Ok(Message::CHAT(String::new())));
    assert_eq!(p.parse("CHA"), Ok(Message::CHAT(String::new())));
}

#[test]
fn parse_takes_the_first_keyword_in_order() {
    let p = MessagePatterns::new().unwrap();
    assert_eq!(p.parse("NICK HELLO"), Ok(Message::HELLO));
    assert_eq!(p.parse("CHAT BYE"), Ok(Message::BYE));
    assert_eq!(p.parse("RETRY READY"), Ok(Message::READY));
}

#[test]
fn parse_errors() {
    let p = MessagePatterns::new().unwrap();
    assert_eq!(p.parse("hello"), Err("could not parse message from user"));
    assert_eq!(p.parse(""), Err(PARSE_ERROR));
    assert_eq!(p.parse("NI CK"), Err(PARSE_ERROR));
    assert_eq!(p.parse("CH"), Err(PARSE_ERROR));
}

#[test]
fn from_str_reads_messages() {
    assert_eq!("BYE".parse::<Message>(), Ok(Message::BYE));
    assert_eq!("garbage".parse::<Message>(), Err(PARSE_ERROR));
    assert_eq!(Message::parse("READY"), Ok(Message::READY));
}

#[test]
fn log_form_reads_back() {
    let p = MessagePatterns::new().unwrap();
    for m in [Message::HELLO, Message::BYE, Message::READY, Message::RETRY] {
        assert_eq!(p.parse(&m.to_string()), Ok(m));
    }
    assert_eq!(
        p.parse(&Message::NICK("dora".to_string()).to_string()),
        Ok(Message::NICK(String::new()))
    );
    assert_eq!(
        p.parse(&Message::CHAT("good day".to_string()).to_string()),
        Ok(Message::CHAT(String::new()))
    );
    // a keyword in the payload wins over the message's own kind
    assert_eq!(p.parse(&Message::CHAT("BYE".to_string()).to_string()), Ok(Message::BYE));
}
