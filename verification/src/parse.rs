//! Reading a message from the text a client sends. The text is tested, in a
//! fixed order, against one pattern per message kind; the first kind whose
//! pattern matches anywhere in the text is the message. The payload of `NICK`
//! and `CHAT` is not read from the text.
use vstd::prelude::*;
use crate::pattern::{compile, contains_text, is_literal_word, is_match, is_starred_word, Pattern};
use crate::protocol::{Message, MessageView};

verus! {

/// The error text of a message that could not be read.
pub const PARSE_ERROR: &'static str = "could not parse message from user";

/// The message kind that text `s` is read as, by the first keyword that
/// occurs in it: `HELLO`, then `NIC` (the pattern `NICK*`), `BYE`, `READY`,
/// `RETRY` and `CHA` (the pattern `CHAT*`). `NICK` and `CHAT` come with an
/// empty payload.
pub open spec fn parsed(s: Seq<char>) -> Option<MessageView> {
    if contains_text(s, "HELLO"@) {
        Some(MessageView::Hello)
    } else if contains_text(s, "NIC"@) {
        Some(MessageView::Nick(Seq::empty()))
    } else if contains_text(s, "BYE"@) {
        Some(MessageView::Bye)
    } else if contains_text(s, "READY"@) {
        Some(MessageView::Ready)
    } else if contains_text(s, "RETRY"@) {
        Some(MessageView::Retry)
    } else if contains_text(s, "CHA"@) {
        Some(MessageView::Chat(Seq::empty()))
    } else {
        None
    }
}

/// A pattern of the message parser that could not be compiled.
#[derive(Clone, PartialEq, Eq, Debug)]
pub struct ParseMessageError(String);

impl ParseMessageError {
    /// The pattern that could not be compiled.
    pub closed spec fn pattern(&self) -> Seq<char> {
        self.0@
    }
}

/// The six compiled patterns, one per message kind.
pub struct MessagePatterns {
    hello: Pattern,
    nick: Pattern,
    bye: Pattern,
    ready: Pattern,
    retry: Pattern,
    chat: Pattern,
}

proof fn lemma_pattern_forms()
    ensures
        "HELLO"@.len() == 5 && "NICK*"@.len() == 5 && "BYE"@.len() == 3,
        "READY"@.len() == 5 && "RETRY"@.len() == 5 && "CHAT*"@.len() == 5,
        is_literal_word("HELLO"@),
        is_starred_word("NICK*"@),
        "NICK*"@.drop_last().drop_last() == "NIC"@,
        is_literal_word("BYE"@),
        is_literal_word("READY"@),
        is_literal_word("RETRY"@),
        is_starred_word("CHAT*"@),
        "CHAT*"@.drop_last().drop_last() == "CHA"@,
{
    reveal_strlit("HELLO");
    reveal_strlit("NICK*");
    reveal_strlit("NIC");
    reveal_strlit("BYE");
    reveal_strlit("READY");
    reveal_strlit("RETRY");
    reveal_strlit("CHAT*");
    reveal_strlit("CHA");
    assert("NICK*"@.drop_last().drop_last() =~= "NIC"@);
    assert("CHAT*"@.drop_last().drop_last() =~= "CHA"@);
}

/// Compiles one pattern, keeping its text as the error when it fails.
fn compile_pattern(pattern: &str) -> (r: Result<Pattern, ParseMessageError>)
    ensures
        r matches Ok(p) ==> p.source() == pattern@,
        r matches Err(e) ==> e.pattern() == pattern@,
        (is_literal_word(pattern@) || is_starred_word(pattern@)) && pattern@.len() <= 16 ==> r is Ok,
{
    match compile(pattern) {
        Ok(p) => Ok(p),
        Err(_) => Err(ParseMessageError(pattern.to_owned())),
    }
}

impl MessagePatterns {
    #[verifier::type_invariant]
    spec fn well_formed(self) -> bool {
        &&& self.hello.source() == "HELLO"@
        &&& self.nick.source() == "NICK*"@
        &&& self.bye.source() == "BYE"@
        &&& self.ready.source() == "READY"@
        &&& self.retry.source() == "RETRY"@
        &&& self.chat.source() == "CHAT*"@
    }

    /// Compiles the patterns `HELLO`, `NICK*`, `BYE`, `READY`, `RETRY` and
    /// `CHAT*`, which always succeeds.
    pub fn new() -> (r: Result<MessagePatterns, ParseMessageError>)
        ensures
            r is Ok,
    {
        proof {
            lemma_pattern_forms();
        }
        let hello = compile_pattern("HELLO")?;
        let nick = compile_pattern("NICK*")?;
        let bye = compile_pattern("BYE")?;
        let ready = compile_pattern("READY")?;
        let retry = compile_pattern("RETRY")?;
        let chat = compile_pattern("CHAT*")?;
        Ok(MessagePatterns { hello, nick, bye, ready, retry, chat })
    }

    /// Reads the message kind of `s` as [`parsed`] states; an error when no
    /// keyword occurs.
    pub fn parse(&self, s: &str) -> (r: Result<Message, &'static str>)
        ensures
            match parsed(s@) {
                Some(v) => r matches Ok(m) && m@ == v,
                None => r matches Err(e) && e@ == PARSE_ERROR@,
            },
    {
        proof {
            use_type_invariant(self);
            lemma_pattern_forms();
        }
        if is_match(&self.hello, s) {
            Ok(Message::HELLO)
        } else if is_match(&self.nick, s) {
            Ok(Message::NICK(String::new()))
        } else if is_match(&self.bye, s) {
            Ok(Message::BYE)
        } else if is_match(&self.ready, s) {
            Ok(Message::READY)
        } else if is_match(&self.retry, s) {
            Ok(Message::RETRY)
        } else if is_match(&self.chat, s) {
            Ok(Message::CHAT(String::new()))
        } else {
            Err(PARSE_ERROR)
        }
    }
}

impl Message {
    /// Reads a message from text, as [`MessagePatterns::parse`] does, with
    /// freshly compiled patterns.
    pub fn parse(s: &str) -> (r: Result<Message, &'static str>)
        ensures
            match parsed(s@) {
                Some(v) => r matches Ok(m) && m@ == v,
                None => r matches Err(e) && e@ == PARSE_ERROR@,
            },
    {
        match MessagePatterns::new() {
            Ok(patterns) => patterns.parse(s),
            Err(_) => Err(PARSE_ERROR),
        }
    }
}

impl std::str::FromStr for Message {
    type Err = &'static str;

    fn from_str(s: &str) -> (r: Result<Message, &'static str>)
        ensures
            match parsed(s@) {
                Some(v) => r matches Ok(m) && m@ == v,
                None => r matches Err(e) && e@ == PARSE_ERROR@,
            },
    {
        Message::parse(s)
    }
}

} // verus!

verus! {

/// `t` holds none of the keywords that [`parsed`] looks for.
pub open spec fn keyword_free(t: Seq<char>) -> bool {
    &&& !contains_text(t, "HELLO"@)
    &&& !contains_text(t, "NIC"@)
    &&& !contains_text(t, "BYE"@)
    &&& !contains_text(t, "READY"@)
    &&& !contains_text(t, "RETRY"@)
    &&& !contains_text(t, "CHA"@)
}

/// `m` with the payload of a `NICK` or `CHAT` emptied.
pub open spec fn without_payload(m: MessageView) -> MessageView {
    match m {
        MessageView::Nick(_) => MessageView::Nick(Seq::empty()),
        MessageView::Chat(_) => MessageView::Chat(Seq::empty()),
        _ => m,
    }
}

/// An occurrence of `w` in `a + b` that is not in `b` starts inside `a`.
proof fn lemma_occurrence_in_head(a: Seq<char>, b: Seq<char>, w: Seq<char>) -> (i: int)
    requires
        contains_text(a + b, w),
        !contains_text(b, w),
    ensures
        0 <= i < a.len(),
        i + w.len() <= a.len() + b.len(),
        forall|k: int| 0 <= k < w.len() ==> (a + b)[i + k] == #[trigger] w[k],
{
    let s = a + b;
    let i = choose|i: int|
        0 <= i <= s.len() - w.len() && #[trigger] s.subrange(i, i + w.len()) == w;
    if i >= a.len() {
        assert(b.subrange(i - a.len(), i - a.len() + w.len()) =~= s.subrange(i, i + w.len()));
        assert(false);
    }
    assert forall|k: int| 0 <= k < w.len() implies (a + b)[i + k] == w[k] by {
        assert(s.subrange(i, i + w.len())[k] == s[i + k]);
    }
    i
}

/// `w` does not occur in `s` when no position where it could start holds its
/// `k`-th character at the matching place.
proof fn lemma_absent(s: Seq<char>, w: Seq<char>, k: int)
    requires
        0 <= k < w.len(),
        forall|j: int| k <= j <= s.len() - w.len() + k ==> #[trigger] s[j] != w[k],
    ensures
        !contains_text(s, w),
{
    if contains_text(s, w) {
        let i = choose|i: int|
            0 <= i <= s.len() - w.len() && #[trigger] s.subrange(i, i + w.len()) == w;
        assert(s.subrange(i, i + w.len())[k] == s[i + k]);
    }
}

proof fn lemma_keyword_at_start(s: Seq<char>, w: Seq<char>)
    requires
        w.len() <= s.len(),
        s.subrange(0, w.len() as int) == w,
    ensures
        contains_text(s, w),
{
    assert(s.subrange(0int, 0int + w.len()) == w);
}

/// Law: the log form of a message ([`Message::to_string`]) reads back
/// ([`MessagePatterns::parse`]) as the same kind of message, when the payload of
/// a `NICK` or `CHAT` holds no keyword; the payload itself is not read back.
#[verifier::spinoff_prover]
#[verifier::rlimit(50)]
pub proof fn lemma_text_reads_back(m: MessageView)
    requires
        keyword_free(m.payload()),
    ensures
        parsed(m.text()) == Some(without_payload(m)),
{
    reveal_strlit("HELLO");
    reveal_strlit("NIC");
    reveal_strlit("NICK");
    reveal_strlit("BYE");
    reveal_strlit("READY");
    reveal_strlit("RETRY");
    reveal_strlit("CHA");
    reveal_strlit("CHAT");
    let s = m.text();
    match m {
        MessageView::Hello => {
            assert(s.subrange(0, 5) =~= "HELLO"@);
            lemma_keyword_at_start(s, "HELLO"@);
        },
        MessageView::Nick(t) => {
            let a = "NICK"@;
            if contains_text(a + t, "HELLO"@) {
                let i = lemma_occurrence_in_head(a, t, "HELLO"@);
                assert((a + t)[i + 0] == "HELLO"@[0]);
            }
            assert(s.subrange(0, 3) =~= "NIC"@);
            lemma_keyword_at_start(s, "NIC"@);
        },
        MessageView::Bye => {
            lemma_absent(s, "NIC"@, 0);
            assert(s.subrange(0, 3) =~= "BYE"@);
            lemma_keyword_at_start(s, "BYE"@);
        },
        MessageView::Ready => {
            lemma_absent(s, "HELLO"@, 0);
            lemma_absent(s, "NIC"@, 0);
            lemma_absent(s, "BYE"@, 0);
            assert(s.subrange(0, 5) =~= "READY"@);
            lemma_keyword_at_start(s, "READY"@);
        },
        MessageView::Retry => {
            lemma_absent(s, "HELLO"@, 0);
            lemma_absent(s, "NIC"@, 0);
            lemma_absent(s, "BYE"@, 0);
            lemma_absent(s, "READY"@, 2);
            assert(s.subrange(0, 5) =~= "RETRY"@);
            lemma_keyword_at_start(s, "RETRY"@);
        },
        MessageView::Chat(t) => {
            let a = "CHAT"@;
            if contains_text(a + t, "HELLO"@) {
                let i = lemma_occurrence_in_head(a, t, "HELLO"@);
                assert((a + t)[i + 0] == "HELLO"@[0]);
                assert((a + t)[i + 1] == "HELLO"@[1]);
            }
            if contains_text(a + t, "NIC"@) {
                let i = lemma_occurrence_in_head(a, t, "NIC"@);
                assert((a + t)[i + 0] == "NIC"@[0]);
            }
            if contains_text(a + t, "BYE"@) {
                let i = lemma_occurrence_in_head(a, t, "BYE"@);
                assert((a + t)[i + 0] == "BYE"@[0]);
            }
            if contains_text(a + t, "READY"@) {
                let i = lemma_occurrence_in_head(a, t, "READY"@);
                assert((a + t)[i + 0] == "READY"@[0]);
            }
            if contains_text(a + t, "RETRY"@) {
                let i = lemma_occurrence_in_head(a, t, "RETRY"@);
                assert((a + t)[i + 0] == "RETRY"@[0]);
            }
            assert(s.subrange(0, 3) =~= "CHA"@);
            lemma_keyword_at_start(s, "CHA"@);
        },
    }
}

} // verus!
