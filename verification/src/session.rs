//! The decisions of a client's session with the server once it has a
//! nickname, of the client program's input loop, and the form of a log line.
use vstd::prelude::*;
use crate::protocol::{Message, MessageView};
use crate::text::{is_white_space, remove_carriage_returns, trim_chars, trim_end_chars, trim_start_chars, trim_str, without_carriage_returns};

verus! {

/// What the server does with one message from a client that has a nickname.
#[derive(PartialEq, Eq, Debug)]
pub enum ChatAction {
    /// Pass this line on to the other users and wait for the next message.
    Broadcast(String),
    /// Ignore the message and wait for the next one.
    Continue,
    /// End the session.
    Stop,
}

/// The chat line the server passes on for the text of a `CHAT`: trimmed of
/// surrounding whitespace, with carriage returns removed.
pub open spec fn chat_line(text: Seq<char>) -> Seq<char> {
    without_carriage_returns(trim_chars(text))
}

/// One step of a client's session: a `CHAT` is passed on as a cleaned line, a
/// `BYE` or a failed receive (nothing) ends the session, anything else is
/// ignored.
pub fn handle_chat_message(received: Option<Message>) -> (r: ChatAction)
    ensures
        match received {
            Some(m) => match m@ {
                MessageView::Chat(t) => r matches ChatAction::Broadcast(line) && line@ == chat_line(t),
                MessageView::Bye => r is Stop,
                _ => r is Continue,
            },
            None => r is Stop,
        },
{
    match received {
        Some(Message::CHAT(x)) => {
            let line = remove_carriage_returns(trim_str(x.as_str()));
            ChatAction::Broadcast(line)
        },
        Some(Message::BYE) => ChatAction::Stop,
        None => ChatAction::Stop,
        Some(_) => ChatAction::Continue,
    }
}

/// A line of the server's log: the time stamp, a tab, the entry and a newline.
pub fn log_line(timestamp: &str, entry: &str) -> (r: String)
    ensures
        r@ == timestamp@ + "\t"@ + entry@ + "\n"@,
{
    let mut line = timestamp.to_owned();
    line.append("\t");
    line.append(entry);
    line.append("\n");
    line
}

/// What the client program does with a line typed by its user.
#[derive(PartialEq, Eq, Debug)]
pub enum ClientInput {
    /// The user typed `:quit`: stop.
    Quit,
    /// Send this text to the server.
    Send(String),
}

/// The client's reading of a typed line: the line without surrounding
/// whitespace is sent, unless it is `:quit`.
pub fn read_client_input(line: &str) -> (r: ClientInput)
    ensures
        trim_chars(line@) == ":quit"@ ==> r is Quit,
        trim_chars(line@) != ":quit"@ ==> (r matches ClientInput::Send(s) && s@ == trim_chars(line@)),
{
    let msg = trim_str(line).to_owned();
    let quit = ":quit".to_owned();
    if msg == quit {
        ClientInput::Quit
    } else {
        ClientInput::Send(msg)
    }
}

} // verus!

verus! {

/// Law: a chat line that the server passes on holds no carriage return.
pub proof fn lemma_chat_line_has_no_carriage_return(text: Seq<char>)
    ensures
        !chat_line(text).contains('\r'),
{
    broadcast use vstd::seq_lib::group_filter_ensures;

    let line = chat_line(text);
    if line.contains('\r') {
        let i = choose|i: int| 0 <= i < line.len() && line[i] == '\r';
        assert(trim_chars(text).filter(|c: char| c != '\r')[i] != '\r');
    }
}

} // verus!

verus! {

/// Text with no whitespace at either end is its own trimmed form.
proof fn lemma_trim_keeps_bare_text(s: Seq<char>)
    requires
        s.len() > 0 ==> !is_white_space(s[0]) && !is_white_space(s.last()),
    ensures
        trim_chars(s) == s,
{
    assert(trim_end_chars(s) == s);
    assert(trim_start_chars(s) == s);
}

/// Removing carriage returns from text that holds none leaves it as it is.
proof fn lemma_no_carriage_return_to_remove(s: Seq<char>)
    requires
        !s.contains('\r'),
    ensures
        without_carriage_returns(s) == s,
    decreases s.len(),
{
    reveal(Seq::filter);
    if s.len() > 0 {
        assert(!s.drop_last().contains('\r')) by {
            if s.drop_last().contains('\r') {
                let j = choose|j: int| 0 <= j < s.drop_last().len() && s.drop_last()[j] == '\r';
                assert(s[j] == '\r');
            }
        }
        lemma_no_carriage_return_to_remove(s.drop_last());
        assert(s.last() != '\r') by {
            assert(s[s.len() - 1] == s.last());
        }
        assert(s.drop_last().push(s.last()) =~= s);
    }
}

/// Law: a chat line with no carriage return and no whitespace at either end
/// is passed on exactly as it came, whatever characters it holds.
pub proof fn lemma_bare_chat_line_is_passed_on_unchanged(text: Seq<char>)
    requires
        !text.contains('\r'),
        text.len() > 0 ==> !is_white_space(text[0]) && !is_white_space(text.last()),
    ensures
        chat_line(text) == text,
{
    lemma_trim_keeps_bare_text(text);
    lemma_no_carriage_return_to_remove(text);
}

/// Law: a carriage return inside a chat line is dropped and the characters
/// around it are kept, in order.
pub proof fn lemma_inner_carriage_return_is_dropped(before: Seq<char>, after: Seq<char>)
    requires
        before.len() > 0,
        after.len() > 0,
        !before.contains('\r'),
        !after.contains('\r'),
        !is_white_space(before[0]),
        !is_white_space(after.last()),
    ensures
        chat_line(before + seq!['\r'] + after) == before + after,
{
    let text = before + seq!['\r'] + after;
    assert(text[0] == before[0]);
    assert(text.last() == after.last());
    lemma_trim_keeps_bare_text(text);
    let pred = |c: char| c != '\r';
    Seq::filter_distributes_over_add(before + seq!['\r'], after, pred);
    Seq::filter_distributes_over_add(before, seq!['\r'], pred);
    reveal(Seq::filter);
    assert(seq!['\r'].drop_last() =~= Seq::<char>::empty());
    assert(Seq::<char>::empty().filter(pred) =~= Seq::<char>::empty());
    assert(seq!['\r'].last() == '\r');
    assert(seq!['\r'].filter(pred) =~= Seq::<char>::empty());
    lemma_no_carriage_return_to_remove(before);
    lemma_no_carriage_return_to_remove(after);
    assert(before + seq!['\r'].filter(pred) =~= before);
}

} // verus!
