//! The IRC frontend's decisions.
//!
//! Inbound `PRIVMSG` lines are routed to one persistent child per
//! reply target.  This module fixes where a reply goes, keeps the
//! route table's keys unique, and builds the client identity a
//! spawned session advertises; the IRC wire protocol stays with the
//! surrounding application.

use vstd::prelude::*;
use vstd::string::{StrSliceExecFns, StringExecFns};
use vstd::utf8::char_u32_cast;

use crate::session::pair_views;

verus! {

/// Where a reply to an inbound message goes: a channel answers to
/// the channel, a direct message to the sender's nickname, and a
/// message with no usable source falls back to its own target.
pub open spec fn reply_target_of(target: Seq<char>, source_nick: Option<Seq<char>>) -> Seq<char> {
    if target.len() > 0 && target[0] == '#' {
        target
    } else {
        match source_nick {
            Some(n) => n,
            None => target,
        }
    }
}

/// The reply target of one message, as [`reply_target_of`] rules.
pub fn reply_target(target: &String, source_nick: Option<&String>) -> (r: String)
    ensures
        r@ == reply_target_of(
            target@,
            match source_nick {
                Some(n) => Some(n@),
                None => None,
            },
        ),
{
    let is_channel = if target.as_str().unicode_len() > 0 {
        target.as_str().get_char(0) == '#'
    } else {
        false
    };
    if is_channel {
        target.clone()
    } else {
        match source_nick {
            Some(n) => n.clone(),
            None => target.clone(),
        }
    }
}

/// Entries whose keys never collide.
pub open spec fn distinct_key_seq<V>(s: Seq<(Seq<char>, V)>) -> bool {
    forall|i: int, j: int|
        0 <= i < j < s.len() ==> (#[trigger] s[i]).0 != (#[trigger] s[j]).0
}

/// Keys rule distinctness: entries that keep their keys entry for
/// entry keep the table free of collisions, whatever happened to the
/// sessions stored under them.
pub proof fn lemma_same_keys_distinct<V>(a: Seq<(Seq<char>, V)>, b: Seq<(Seq<char>, V)>)
    requires
        a.len() == b.len(),
        forall|j: int| 0 <= j < a.len() ==> (#[trigger] b[j]).0 == a[j].0,
        distinct_key_seq(a),
    ensures
        distinct_key_seq(b),
{
    assert forall|i: int, j: int|
        0 <= i < j < b.len() implies (#[trigger] b[i]).0 != (#[trigger] b[j]).0 by {
        assert(a[i].0 != a[j].0);
    }
}

/// The table from reply target to its hosted session.  Keys are
/// unique; entries are added lazily on the first message for a
/// target and stay until evicted by the caller.
pub struct RouteTable<V> {
    entries: Vec<(String, V)>,
}

impl<V> RouteTable<V> {
    /// The table's entries: each key's characters with its value, in
    /// insertion order.
    pub closed spec fn entries_view(&self) -> Seq<(Seq<char>, V)> {
        self.entries@.map(|i: int, e: (String, V)| (e.0@, e.1))
    }

    /// No two entries share a key.
    pub open spec fn distinct_keys(&self) -> bool {
        distinct_key_seq(self.entries_view())
    }

    /// Whether some entry carries this key.
    pub open spec fn has_key(&self, key: Seq<char>) -> bool {
        exists|i: int|
            0 <= i < self.entries_view().len() && (#[trigger] self.entries_view()[i]).0 == key
    }

    /// An empty table.
    pub fn new() -> (t: RouteTable<V>)
        ensures
            t.entries_view() == Seq::<(Seq<char>, V)>::empty(),
            t.distinct_keys(),
    {
        let t = RouteTable { entries: Vec::new() };
        proof {
            assert(t.entries_view() =~= Seq::<(Seq<char>, V)>::empty());
        }
        t
    }

    /// How many targets have a session.
    pub fn len(&self) -> (n: usize)
        ensures
            n == self.entries_view().len(),
    {
        self.entries.len()
    }

    /// The position of the entry carrying `key`, if there is one.
    pub fn find(&self, key: &String) -> (r: Option<usize>)
        ensures
            match r {
                Some(i) => i < self.entries_view().len() && self.entries_view()[i as int].0
                    == key@,
                None => !self.has_key(key@),
            },
    {
        let mut i: usize = 0;
        while i < self.entries.len()
            invariant
                i <= self.entries@.len(),
                forall|j: int| 0 <= j < i ==> (#[trigger] self.entries_view()[j]).0 != key@,
            decreases self.entries@.len() - i,
        {
            let e = vstd::std_specs::vec::vec_index(&self.entries, i);
            if e.0.eq(key) {
                return Some(i);
            }
            i = i + 1;
        }
        proof {
            if self.has_key(key@) {
                let k = choose|k: int|
                    0 <= k < self.entries_view().len() && (#[trigger] self.entries_view()[k]).0
                        == key@;
            }
        }
        None
    }

    /// Add a session for a target no entry carries yet.
    pub fn insert(&mut self, key: String, value: V)
        requires
            !old(self).has_key(key@),
        ensures
            final(self).entries_view() == old(self).entries_view().push((key@, value)),
            old(self).distinct_keys() ==> final(self).distinct_keys(),
    {
        self.entries.push((key, value));
        proof {
            assert(self.entries_view() =~= old(self).entries_view().push((key@, value)));
        }
    }

    /// Read the session at a position.
    pub fn session_at(&self, i: usize) -> (r: &V)
        requires
            i < self.entries_view().len(),
        ensures
            *r == self.entries_view()[i as int].1,
    {
        &vstd::std_specs::vec::vec_index(&self.entries, i).1
    }

    /// Borrow the session at a position for writing.  Every key —
    /// the one here included — stays as it was, so a caller carries
    /// [`distinct_keys`](Self::distinct_keys) across such borrows
    /// with [`lemma_same_keys_distinct`].
    pub fn session_at_mut(&mut self, i: usize) -> (r: &mut V)
        requires
            i < old(self).entries_view().len(),
        ensures
            *r == old(self).entries_view()[i as int].1,
            final(self).entries_view().len() == old(self).entries_view().len(),
            final(self).entries_view()[i as int] == (
                old(self).entries_view()[i as int].0,
                *final(r),
            ),
            forall|j: int|
                0 <= j < old(self).entries_view().len() && j != i
                    ==> #[trigger] final(self).entries_view()[j] == old(self).entries_view()[j],
            forall|j: int|
                0 <= j < old(self).entries_view().len()
                    ==> (#[trigger] final(self).entries_view()[j]).0
                        == old(self).entries_view()[j].0,
    {
        let e = vstd::std_specs::vec::vec_index_mut(&mut self.entries, i);
        &mut e.1
    }
}

/// The decimal digits of `n`, most significant first.
pub open spec fn dec_chars(n: nat) -> Seq<char>
    decreases n,
{
    if n < 10 {
        seq![digit_char(n)]
    } else {
        dec_chars(n / 10).push(digit_char(n % 10))
    }
}

/// The character for one decimal digit.
pub open spec fn digit_char(d: nat) -> char
    recommends
        d < 10,
{
    ((48 + d) as u32) as char
}

/// Append one decimal digit to a string.
fn push_digit(s: &mut String, d: u8)
    requires
        d < 10,
    ensures
        final(s)@ == old(s)@ + seq![digit_char(d as nat)],
{
    proof {
        reveal_strlit("0");
        reveal_strlit("1");
        reveal_strlit("2");
        reveal_strlit("3");
        reveal_strlit("4");
        reveal_strlit("5");
        reveal_strlit("6");
        reveal_strlit("7");
        reveal_strlit("8");
        reveal_strlit("9");
        char_u32_cast('0', 48);
        char_u32_cast('1', 49);
        char_u32_cast('2', 50);
        char_u32_cast('3', 51);
        char_u32_cast('4', 52);
        char_u32_cast('5', 53);
        char_u32_cast('6', 54);
        char_u32_cast('7', 55);
        char_u32_cast('8', 56);
        char_u32_cast('9', 57);
    }
    match d {
        0 => {
            s.append("0");
            proof {
                assert(final(s)@ =~= old(s)@ + seq![digit_char(0)]);
            }
        },
        1 => {
            s.append("1");
            proof {
                assert(final(s)@ =~= old(s)@ + seq![digit_char(1)]);
            }
        },
        2 => {
            s.append("2");
            proof {
                assert(final(s)@ =~= old(s)@ + seq![digit_char(2)]);
            }
        },
        3 => {
            s.append("3");
            proof {
                assert(final(s)@ =~= old(s)@ + seq![digit_char(3)]);
            }
        },
        4 => {
            s.append("4");
            proof {
                assert(final(s)@ =~= old(s)@ + seq![digit_char(4)]);
            }
        },
        5 => {
            s.append("5");
            proof {
                assert(final(s)@ =~= old(s)@ + seq![digit_char(5)]);
            }
        },
        6 => {
            s.append("6");
            proof {
                assert(final(s)@ =~= old(s)@ + seq![digit_char(6)]);
            }
        },
        7 => {
            s.append("7");
            proof {
                assert(final(s)@ =~= old(s)@ + seq![digit_char(7)]);
            }
        },
        8 => {
            s.append("8");
            proof {
                assert(final(s)@ =~= old(s)@ + seq![digit_char(8)]);
            }
        },
        _ => {
            s.append("9");
            proof {
                assert(final(s)@ =~= old(s)@ + seq![digit_char(9)]);
            }
        },
    }
}

/// Append the decimal form of a port number to a string.
fn push_dec(s: &mut String, n: u16)
    ensures
        final(s)@ == old(s)@ + dec_chars(n as nat),
    decreases n,
{
    if n >= 10 {
        push_dec(s, n / 10);
    }
    push_digit(s, (n % 10) as u8);
    proof {
        if n >= 10 {
            assert(old(s)@ + dec_chars((n / 10) as nat) + seq![digit_char((n % 10) as nat)]
                =~= old(s)@ + dec_chars(n as nat));
        }
    }
}

/// The scheme a session's client identity carries.
pub open spec fn scheme_chars(use_tls: bool) -> Seq<char> {
    if use_tls {
        "ircs"@
    } else {
        "irc"@
    }
}

/// The client identity a spawned IRC session advertises:
/// `scheme://server:port/reply_target`, with `ircs` under TLS and
/// `irc` otherwise.
pub fn irc_client_uri(use_tls: bool, server: &String, port: u16, reply_to: &String) -> (r: String)
    ensures
        r@ == scheme_chars(use_tls) + "://"@ + server@ + ":"@ + dec_chars(port as nat) + "/"@
            + reply_to@,
{
    let mut s = if use_tls {
        String::from_str("ircs")
    } else {
        String::from_str("irc")
    };
    s.append("://");
    s.append(server.as_str());
    s.append(":");
    push_dec(&mut s, port);
    s.append("/");
    s.append(reply_to.as_str());
    s
}

/// The environment entries a spawned IRC session gets: the IRC type
/// tag and the client identity.
pub fn irc_spawn_env(client: &String) -> (r: Vec<(String, String)>)
    ensures
        pair_views(r@) == seq![("H-TYPE"@, "HAMELIN.RS-IRC-0.1"@), ("H-CLIENT"@, client@)],
{
    let mut env: Vec<(String, String)> = Vec::new();
    env.push((String::from_str("H-TYPE"), String::from_str("HAMELIN.RS-IRC-0.1")));
    env.push((String::from_str("H-CLIENT"), client.clone()));
    proof {
        assert(pair_views(env@) =~= seq![
            ("H-TYPE"@, "HAMELIN.RS-IRC-0.1"@),
            ("H-CLIENT"@, client@),
        ]);
    }
    env
}

} // verus!
