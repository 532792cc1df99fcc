use chat_server::protocol::Message;
use chat_server::session::{handle_chat_message, log_line, read_client_input, ChatAction, ClientInput};

#[test]
fn chat_lines_are_cleaned() {
    assert_eq!(
        handle_chat_message(Some(Message::CHAT("  hello world\r\n".to_string()))),
        ChatAction::Broadcast("hello world".to_string())
    );
    assert_eq!(
        handle_chat_message(Some(Message::CHAT("a\rb\r".to_string()))),
        ChatAction::Broadcast("ab".to_string())
    );
    assert_eq!(
        handle_chat_message(Some(Message::CHAT("\u{2003}wide\u{3000}".to_string()))),
        ChatAction::Broadcast("wide".to_string())
    );
    assert_eq!(
        handle_chat_message(Some(Message::CHAT("x\0\0".to_string()))),
        ChatAction::Broadcast("x\0\0".to_string())
    );
}

#[test]
fn session_ends_on_bye_or_failure() {
    assert_eq!(handle_chat_message(Some(Message::BYE)), ChatAction::Stop);
    assert_eq!(handle_chat_message(None), ChatAction::Stop);
}

#[test]
fn other_messages_are_ignored() {
    assert_eq!(handle_chat_message(Some(Message::HELLO)), ChatAction::Continue);
    assert_eq!(handle_chat_message(Some(Message::NICK("n".to_string()))), ChatAction::Continue);
    assert_eq!(handle_chat_message(Some(Message::READY)), ChatAction::Continue);
    assert_eq!(handle_chat_message(Some(Message::RETRY)), ChatAction::Continue);
}

#[test]
fn log_line_format() {
    assert_eq!(log_line("2020-11-24 10:00:00 UTC", "Server starts"), "2020-11-24 10:00:00 UTC\tServer starts\n");
    assert_eq!(log_line("", ""), "\t\n");
}

#[test]
fn client_input() {
    assert_eq!(read_client_input(":quit\n"), ClientInput::Quit);
    assert_eq!(read_client_input("  :quit  "), ClientInput::Quit);
    assert_eq!(read_client_input("NICKbob\n"), ClientInput::Send("NICKbob".to_string()));
    assert_eq!(read_client_input(":quit now"), ClientInput::Send(":quit now".to_string()));
    assert_eq!(read_client_input("\n"), ClientInput::Send(String::new()));
}
