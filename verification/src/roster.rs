//! The server's decisions about its connections: who receives a chat line,
//! which connections stay, and whether a requested nickname is granted.
//!
//! The server keeps one entry per connection with the nickname it goes by
//! (empty until one is granted). The functions here read a snapshot of those
//! entries and say, by index, what the server does with them.
use vstd::prelude::*;
use vstd::utf8::{decode_utf8, valid_utf8};
use crate::parse::{parsed, MessagePatterns};
use crate::protocol::{Message, MessageView};
use crate::text::utf8_str;

verus! {

/// The address of a connection's peer: an IPv4 address and port, or an IPv6
/// address, port, flow label and scope id (the parts by which socket
/// addresses compare).
#[derive(Clone, Copy, PartialEq, Eq, Structural, Debug)]
pub enum PeerAddr {
    V4 { ip: u32, port: u16 },
    V6 { ip: u128, port: u16, flowinfo: u32, scope_id: u32 },
}

/// One entry of the connection list: the peer's address, when the socket
/// could report it, and the nickname the connection goes by.
#[derive(Clone, Debug)]
pub struct Connection {
    pub peer: Option<PeerAddr>,
    pub nickname: String,
}

/// The indices below `n` that satisfy `p`, in increasing order.
pub open spec fn indices_where(n: nat, p: spec_fn(int) -> bool) -> Seq<usize> {
    Seq::new(n, |i: int| i as usize).filter(|i: usize| p(i as int))
}

proof fn lemma_indices_step(n: nat, p: spec_fn(int) -> bool)
    requires
        n < usize::MAX,
    ensures
        indices_where(n + 1, p) == if p(n as int) {
            indices_where(n, p).push(n as usize)
        } else {
            indices_where(n, p)
        },
{
    reveal(Seq::filter);
    let s = Seq::new(n + 1, |i: int| i as usize);
    assert(s.drop_last() =~= Seq::new(n, |i: int| i as usize));
}

proof fn lemma_indices_empty(p: spec_fn(int) -> bool)
    ensures
        indices_where(0, p) == Seq::<usize>::empty(),
{
    reveal(Seq::filter);
    assert(Seq::new(0, |i: int| i as usize) =~= Seq::<usize>::empty());
}

/// The indices below `n` that [`indices_where`] picks are those that satisfy
/// `p`, each below `n`.
proof fn lemma_indices_where_members(n: nat, p: spec_fn(int) -> bool)
    requires
        n <= usize::MAX,
    ensures
        forall|k: usize| k < n ==> (#[trigger] indices_where(n, p).contains(k) <==> p(k as int)),
        forall|j: int|
            0 <= j < indices_where(n, p).len() ==> #[trigger] indices_where(n, p)[j] < n,
    decreases n,
{
    if n == 0 {
        lemma_indices_empty(p);
    } else {
        let m = (n - 1) as nat;
        lemma_indices_where_members(m, p);
        lemma_indices_step(m, p);
        let prev = indices_where(m, p);
        let cur = indices_where(n, p);
        assert(!prev.contains(m as usize)) by {
            if prev.contains(m as usize) {
                let j = choose|j: int| 0 <= j < prev.len() && prev[j] == m as usize;
                assert(prev[j] < m);
            }
        }
        assert forall|k: usize| k < n implies (#[trigger] cur.contains(k) <==> p(k as int)) by {
            if k < m {
                if p(m as int) {
                    if cur.contains(k) {
                        let j = choose|j: int| 0 <= j < cur.len() && cur[j] == k;
                        if j < prev.len() {
                            assert(prev[j] == cur[j]);
                        }
                    }
                    if prev.contains(k) {
                        let j = choose|j: int| 0 <= j < prev.len() && prev[j] == k;
                        assert(cur[j] == prev[j]);
                    }
                }
            } else {
                if p(m as int) {
                    assert(cur[prev.len() as int] == m as usize);
                }
            }
        }
        assert forall|j: int| 0 <= j < cur.len() implies #[trigger] cur[j] < n by {
            if j < prev.len() {
                assert(cur[j] == prev[j]);
            }
        }
    }
}

/// Whether the connection `c` is sent a chat line from the peer at `me`: it
/// has a nickname, and its peer is known and is not `me`.
pub open spec fn gets_broadcast(c: Connection, me: PeerAddr) -> bool {
    &&& c.nickname@.len() > 0
    &&& c.peer matches Some(a) && a != me
}

/// The connections, by index, that a chat line from the peer at `me` goes to.
pub open spec fn broadcast_recipients(conns: Seq<Connection>, me: PeerAddr) -> Seq<usize> {
    indices_where(conns.len(), |i: int| gets_broadcast(conns[i], me))
}

/// Law: a chat line from the peer at `me` goes to exactly the connections that
/// have a nickname and whose peer is known and differs from `me` as a whole
/// address (a peer on the same host at another port receives it).
pub proof fn lemma_broadcast_reaches_the_other_named_peers(conns: Seq<Connection>, me: PeerAddr)
    requires
        conns.len() <= usize::MAX,
    ensures
        forall|k: usize|
            k < conns.len() ==> (#[trigger] broadcast_recipients(conns, me).contains(k) <==> {
                &&& conns[k as int].nickname@.len() > 0
                &&& conns[k as int].peer is Some
                &&& conns[k as int].peer->0 != me
            }),
{
    lemma_indices_where_members(conns.len(), |i: int| gets_broadcast(conns[i], me));
}

/// A chat line to pass on: the `CHAT` message, signed with the sender's
/// nickname, and the indices of the connections it goes to.
#[derive(Debug)]
pub struct Broadcast {
    pub recipients: Vec<usize>,
    pub message: Message,
    pub nickname: String,
}

/// Sends a message from one user to all other users: the line `message` from
/// the user `nick` at `me` goes, as a `CHAT` signed with `nick`, to every
/// connection that has a nickname and whose peer is known and is not `me`.
pub fn blast_out(conns: &Vec<Connection>, me: &PeerAddr, nick: &String, message: &String) -> (r: Broadcast)
    ensures
        r.recipients@ == broadcast_recipients(conns@, *me),
        forall|k: usize|
            k < conns@.len() ==> (#[trigger] r.recipients@.contains(k) <==> {
                &&& conns@[k as int].nickname@.len() > 0
                &&& conns@[k as int].peer is Some
                &&& conns@[k as int].peer->0 != *me
            }),
        forall|j: int| 0 <= j < r.recipients@.len() ==> r.recipients@[j] < conns@.len(),
        r.message@ == MessageView::Chat(message@),
        r.nickname@ == nick@,
{
    let ghost p = |i: int| gets_broadcast(conns@[i], *me);
    let mut recipients: Vec<usize> = Vec::new();
    let mut i: usize = 0;
    proof {
        lemma_indices_empty(p);
    }
    while i < conns.len()
        invariant
            i <= conns@.len(),
            p == (|i: int| gets_broadcast(conns@[i], *me)),
            recipients@ == indices_where(i as nat, p),
        decreases conns@.len() - i,
    {
        proof {
            lemma_indices_step(i as nat, p);
        }
        let c = &conns[i];
        let named = !c.nickname.as_str().is_empty();
        let elsewhere = match c.peer {
            Some(a) => a != *me,
            None => false,
        };
        if named && elsewhere {
            recipients.push(i);
        }
        i = i + 1;
    }
    proof {
        lemma_broadcast_reaches_the_other_named_peers(conns@, *me);
        lemma_indices_where_members(conns@.len(), p);
    }
    Broadcast { recipients, message: Message::CHAT(message.clone()), nickname: nick.clone() }
}

/// The entries of `conns` whose peer is not `target`, in their order: the list
/// that removing the connection to `target` leaves.
pub open spec fn remaining_after_removal(conns: Seq<Connection>, target: PeerAddr) -> Seq<Connection> {
    conns.filter(|c: Connection| c.peer != Some(target))
}

/// The entries of `conns` at the positions `indices`.
pub open spec fn entries_at(conns: Seq<Connection>, indices: Seq<usize>) -> Seq<Connection> {
    indices.map_values(|i: usize| conns[i as int])
}

proof fn lemma_selected_entries(
    s: Seq<Connection>,
    n: nat,
    p: spec_fn(int) -> bool,
    q: spec_fn(Connection) -> bool,
)
    requires
        n <= s.len(),
        n <= usize::MAX,
        forall|i: int| 0 <= i < s.len() ==> p(i) == q(#[trigger] s[i]),
    ensures
        entries_at(s, indices_where(n, p)) == s.take(n as int).filter(q),
    decreases n,
{
    reveal(Seq::filter);
    if n == 0 {
        lemma_indices_empty(p);
        assert(entries_at(s, indices_where(n, p)) =~= Seq::<Connection>::empty());
        assert(s.take(0) =~= Seq::<Connection>::empty());
    } else {
        let m = (n - 1) as nat;
        lemma_selected_entries(s, m, p, q);
        lemma_indices_step(m, p);
        assert(s.take(n as int).drop_last() =~= s.take(m as int));
        assert(s.take(n as int).last() == s[m as int]);
        if p(m as int) {
            assert(entries_at(s, indices_where(m, p).push(m as usize)) =~= entries_at(
                s,
                indices_where(m, p),
            ).push(s[m as int]));
        }
    }
}

/// Removes a connection from the list: the indices of the entries to keep,
/// those whose peer is not `to_remove`, in their order.
pub fn remove_connection(conns: &Vec<Connection>, to_remove: &PeerAddr) -> (kept: Vec<usize>)
    requires
        forall|i: int| 0 <= i < conns@.len() ==> (#[trigger] conns@[i]).peer is Some,
    ensures
        kept@ == indices_where(conns@.len(), |i: int| conns@[i].peer != Some(*to_remove)),
        entries_at(conns@, kept@) == remaining_after_removal(conns@, *to_remove),
        forall|k: usize|
            k < conns@.len() ==> (#[trigger] kept@.contains(k) <==> conns@[k as int].peer != Some(
                *to_remove,
            )),
        forall|j: int| 0 <= j < kept@.len() ==> kept@[j] < conns@.len(),
{
    let ghost p = |i: int| conns@[i].peer != Some(*to_remove);
    let mut kept: Vec<usize> = Vec::new();
    let mut i: usize = 0;
    proof {
        lemma_indices_empty(p);
    }
    while i < conns.len()
        invariant
            i <= conns@.len(),
            p == (|i: int| conns@[i].peer != Some(*to_remove)),
            forall|i: int| 0 <= i < conns@.len() ==> (#[trigger] conns@[i]).peer is Some,
            kept@ == indices_where(i as nat, p),
        decreases conns@.len() - i,
    {
        proof {
            lemma_indices_step(i as nat, p);
        }
        let peer = conns[i].peer.unwrap();
        if peer != *to_remove {
            kept.push(i);
        }
        i = i + 1;
    }
    proof {
        lemma_selected_entries(conns@, conns@.len(), p, |c: Connection| c.peer != Some(*to_remove));
        lemma_indices_where_members(conns@.len(), p);
        assert(conns@.take(conns@.len() as int) =~= conns@);
    }
    kept
}

/// Filtering by `a` and then by `b` keeps what satisfies both.
proof fn lemma_filter_filter<A>(s: Seq<A>, a: spec_fn(A) -> bool, b: spec_fn(A) -> bool)
    ensures
        s.filter(a).filter(b) == s.filter(|x: A| a(x) && b(x)),
    decreases s.len(),
{
    reveal(Seq::filter);
    if s.len() > 0 {
        lemma_filter_filter(s.drop_last(), a, b);
        let sub = s.drop_last().filter(a);
        if a(s.last()) {
            assert(s.filter(a).drop_last() =~= sub);
        }
    }
}

/// Law: removing the connection to a peer a second time changes nothing.
pub proof fn lemma_removal_is_idempotent(conns: Seq<Connection>, target: PeerAddr)
    ensures
        remaining_after_removal(remaining_after_removal(conns, target), target)
            == remaining_after_removal(conns, target),
{
    let q = |c: Connection| c.peer != Some(target);
    lemma_filter_filter(conns, q, q);
    assert((|x: Connection| q(x) && q(x)) =~= q);
}

/// Law: removing the connections to two peers leaves the same list in either
/// order.
pub proof fn lemma_removals_commute(conns: Seq<Connection>, first: PeerAddr, second: PeerAddr)
    ensures
        remaining_after_removal(remaining_after_removal(conns, first), second)
            == remaining_after_removal(remaining_after_removal(conns, second), first),
{
    let q1 = |c: Connection| c.peer != Some(first);
    let q2 = |c: Connection| c.peer != Some(second);
    lemma_filter_filter(conns, q1, q2);
    lemma_filter_filter(conns, q2, q1);
    assert((|x: Connection| q1(x) && q2(x)) =~= (|x: Connection| q2(x) && q1(x)));
}

/// Removes all dead connections: the indices of the connections whose socket
/// reports no error, in their order.
pub fn remove_dead_connections(healthy: &Vec<bool>) -> (kept: Vec<usize>)
    ensures
        kept@ == indices_where(healthy@.len(), |i: int| healthy@[i]),
        forall|k: usize| k < healthy@.len() ==> (#[trigger] kept@.contains(k) <==> healthy@[k as int]),
        forall|j: int| 0 <= j < kept@.len() ==> kept@[j] < healthy@.len(),
{
    let ghost p = |i: int| healthy@[i];
    let mut kept: Vec<usize> = Vec::new();
    let mut i: usize = 0;
    proof {
        lemma_indices_empty(p);
    }
    while i < healthy.len()
        invariant
            i <= healthy@.len(),
            p == (|i: int| healthy@[i]),
            kept@ == indices_where(i as nat, p),
        decreases healthy@.len() - i,
    {
        proof {
            lemma_indices_step(i as nat, p);
        }
        if healthy[i] {
            kept.push(i);
        }
        i = i + 1;
    }
    proof {
        lemma_indices_where_members(healthy@.len(), p);
    }
    kept
}

} // verus!

verus! {

/// The nicknames of a list, as character sequences.
pub open spec fn names_of(names: Seq<String>) -> Seq<Seq<char>> {
    names.map_values(|s: String| s@)
}

/// Law: a name is in use exactly when some entry of the list is that name,
/// compared as whole strings.
pub proof fn lemma_name_in_use(names: Seq<String>, n: Seq<char>)
    ensures
        names_of(names).contains(n) <==> exists|i: int| 0 <= i < names.len() && (#[trigger] names[i])@ == n,
{
    if names_of(names).contains(n) {
        let j = choose|j: int| 0 <= j < names_of(names).len() && names_of(names)[j] == n;
        assert(names[j]@ == n);
    }
    if exists|i: int| 0 <= i < names.len() && (#[trigger] names[i])@ == n {
        let i = choose|i: int| 0 <= i < names.len() && (#[trigger] names[i])@ == n;
        assert(names_of(names)[i] == n);
    }
}

/// What the server does with one message received while a client picks its
/// nickname.
#[derive(PartialEq, Eq, Debug)]
pub enum NicknameStep {
    /// Grant the nickname: record it, answer `READY` and go on with it.
    Accept(String),
    /// The nickname is taken: answer `RETRY` and wait for another.
    Retry,
    /// Not a nickname request: wait for the next message.
    Wait,
    /// The client left or the connection failed: stop without a nickname.
    Close,
}

/// Whether `n` is one of `names`.
fn name_taken(names: &Vec<String>, n: &String) -> (b: bool)
    ensures
        b == names_of(names@).contains(n@),
{
    let mut i: usize = 0;
    while i < names.len()
        invariant
            i <= names@.len(),
            forall|j: int| 0 <= j < i ==> names@[j]@ != n@,
        decreases names@.len() - i,
    {
        if names[i] == *n {
            assert(names_of(names@)[i as int] == n@);
            return true;
        }
        i = i + 1;
    }
    assert forall|j: int| 0 <= j < names_of(names@).len() implies names_of(names@)[j] != n@ by {}
    false
}

/// One step of getting a valid nickname from a user, given the nicknames in
/// use and the message received (nothing when receiving failed): a `NICK`
/// whose name is free is accepted and one whose name is taken is retried; a
/// `BYE` or a failed receive closes; anything else is ignored.
pub fn get_nickname(nicknames: &Vec<String>, received: Option<Message>) -> (r: NicknameStep)
    ensures
        match received {
            Some(m) => match m@ {
                MessageView::Nick(n) => if names_of(nicknames@).contains(n) {
                    r is Retry
                } else {
                    r matches NicknameStep::Accept(a) && a@ == n
                },
                MessageView::Bye => r is Close,
                _ => r is Wait,
            },
            None => r is Close,
        },
        received is Some && received->0@ is Nick ==> (r is Retry <==> exists|i: int|
            0 <= i < nicknames@.len() && (#[trigger] nicknames@[i])@ == received->0@->Nick_0),
{
    proof {
        if received is Some {
            lemma_name_in_use(nicknames@, received->0@.payload());
        }
    }
    match received {
        Some(Message::NICK(n)) => {
            if name_taken(nicknames, &n) {
                NicknameStep::Retry
            } else {
                NicknameStep::Accept(n)
            }
        },
        Some(Message::BYE) => NicknameStep::Close,
        None => NicknameStep::Close,
        Some(_) => NicknameStep::Wait,
    }
}

/// The nickname that the text a client sent asks for, if it is a `NICK`:
/// the text read as UTF-8 and parsed by [`parsed`].
pub open spec fn requested_nickname(received: Seq<u8>) -> Option<Seq<char>> {
    if valid_utf8(received) {
        match parsed(decode_utf8(received)) {
            Some(MessageView::Nick(n)) => Some(n),
            _ => None,
        }
    } else {
        None
    }
}

/// Law: text asks for a nickname exactly when it is UTF-8 and reads as a
/// `NICK`, and then it asks for that `NICK`'s name; any other message, such as
/// a `CHAT`, asks for none.
pub proof fn lemma_only_nickname_requests_ask(received: Seq<u8>)
    ensures
        requested_nickname(received) is Some <==> (valid_utf8(received) && parsed(
            decode_utf8(received),
        ) matches Some(MessageView::Nick(_))),
        requested_nickname(received) matches Some(n) ==> parsed(decode_utf8(received)) == Some(
            MessageView::Nick(n),
        ),
{
}

/// Gets a valid nickname from the text a user sent and adds it to the list of
/// nicknames in use: when the text is a `NICK` whose name is not in use, the
/// name is added and returned; otherwise the list is left as it is and nothing
/// is returned, and the caller reads on.
pub fn getNickname(patterns: &MessagePatterns, received: &[u8], nicknames: &mut Vec<String>) -> (r: Option<String>)
    ensures
        match requested_nickname(received@) {
            Some(n) if !names_of(old(nicknames)@).contains(n) => {
                &&& r matches Some(s) && s@ == n
                &&& names_of(final(nicknames)@) == names_of(old(nicknames)@).push(n)
            },
            _ => r is None && final(nicknames)@ == old(nicknames)@,
        },
        !(valid_utf8(received@) && parsed(decode_utf8(received@)) matches Some(MessageView::Nick(_)))
            ==> r is None && final(nicknames)@ == old(nicknames)@,
{
    proof {
        lemma_only_nickname_requests_ask(received@);
    }
    let text = match utf8_str(received) {
        Some(t) => t,
        None => return None,
    };
    match patterns.parse(text) {
        Ok(Message::NICK(n)) => {
            if name_taken(nicknames, &n) {
                None
            } else {
                let granted = n.clone();
                nicknames.push(n);
                assert(names_of(nicknames@) =~= names_of(old(nicknames)@).push(granted@));
                Some(granted)
            }
        },
        _ => None,
    }
}

/// Every non-empty name occurs at most once.
pub open spec fn named_entries_distinct(names: Seq<Seq<char>>) -> bool {
    forall|i: int, j: int|
        0 <= i < names.len() && 0 <= j < names.len() && i != j && names[i].len() > 0 ==> names[i]
            != names[j]
}

/// Law: granting a nickname that is not in use, as [`get_nickname`] and
/// [`getNickname`] do, keeps the non-empty nicknames in use distinct.
pub proof fn lemma_granting_keeps_nicknames_distinct(names: Seq<Seq<char>>, n: Seq<char>)
    requires
        named_entries_distinct(names),
        !names.contains(n),
    ensures
        named_entries_distinct(names.push(n)),
{
    let s = names.push(n);
    assert forall|i: int, j: int|
        0 <= i < s.len() && 0 <= j < s.len() && i != j && s[i].len() > 0 implies s[i] != s[j] by {
        if i == names.len() {
            assert(s[j] == names[j]);
        } else if j == names.len() {
            assert(s[i] == names[i]);
        } else {
            assert(s[i] == names[i] && s[j] == names[j]);
        }
    }
}

} // verus!
