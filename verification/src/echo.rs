//! The built-in echo controller: every player message is echoed to all
//! remaining players as `<player>: <text>` with a trailing line break; a
//! player who says "stop", in any letter case, is kicked.

use vstd::prelude::*;

use crate::game_host::Controller;
use crate::types::{Data, HostMsg, PlayerId, PlayerMsg};

verus! {

/// The decimal digit character for a value below ten.
pub open spec fn digit_char(d: nat) -> char {
    if d == 0 {
        '0'
    } else if d == 1 {
        '1'
    } else if d == 2 {
        '2'
    } else if d == 3 {
        '3'
    } else if d == 4 {
        '4'
    } else if d == 5 {
        '5'
    } else if d == 6 {
        '6'
    } else if d == 7 {
        '7'
    } else if d == 8 {
        '8'
    } else {
        '9'
    }
}

/// The decimal notation of a number, most significant digit first.
pub open spec fn decimal_of(n: nat) -> Seq<char>
    decreases n,
{
    if n < 10 {
        seq![digit_char(n)]
    } else {
        decimal_of(n / 10) + seq![digit_char(n % 10)]
    }
}

/// The one-character string for a digit.
fn digit_str(d: u64) -> (r: &'static str)
    requires
        d < 10,
    ensures
        r@ == seq![digit_char(d as nat)],
{
    proof {
        reveal_strlit("0");
        reveal_strlit("1");
        reveal_strlit("2");
        reveal_strlit("3");
        reveal_strlit("4");
        reveal_strlit("5");
        reveal_strlit("6");
        reveal_strlit("7");
        reveal_strlit("8");
        reveal_strlit("9");
    }
    let r: &'static str = if d == 0 {
        "0"
    } else if d == 1 {
        "1"
    } else if d == 2 {
        "2"
    } else if d == 3 {
        "3"
    } else if d == 4 {
        "4"
    } else if d == 5 {
        "5"
    } else if d == 6 {
        "6"
    } else if d == 7 {
        "7"
    } else if d == 8 {
        "8"
    } else {
        "9"
    };
    proof {
        assert(r@ =~= seq![digit_char(d as nat)]);
    }
    r
}

/// Print a number in decimal.
pub fn decimal_string(n: u64) -> (r: String)
    ensures
        r@ == decimal_of(n as nat),
    decreases n,
{
    if n < 10 {
        String::from_str(digit_str(n))
    } else {
        let prefix = decimal_string(n / 10);
        prefix.concat(digit_str(n % 10))
    }
}

/// Whether the text reads "stop" in any letter case.
pub open spec fn is_stop_text(s: Seq<char>) -> bool {
    s.len() == 4 && (s[0] == 's' || s[0] == 'S') && (s[1] == 't' || s[1] == 'T') && (s[2] == 'o'
        || s[2] == 'O') && (s[3] == 'p' || s[3] == 'P')
}

/// Test whether a message text reads "stop" in any letter case.
pub fn is_stop(s: &String) -> (r: bool)
    ensures
        r == is_stop_text(s@),
{
    let st = s.as_str();
    if st.unicode_len() != 4 {
        return false;
    }
    let c0 = st.get_char(0);
    let c1 = st.get_char(1);
    let c2 = st.get_char(2);
    let c3 = st.get_char(3);
    (c0 == 's' || c0 == 'S') && (c1 == 't' || c1 == 'T') && (c2 == 'o' || c2 == 'O') && (c3 == 'p'
        || c3 == 'P')
}

/// The line the echo controller sends for one player message:
/// `<player>: <text>` with a trailing line break.
pub open spec fn echo_line(id: PlayerId, text: Seq<char>) -> Seq<char> {
    decimal_of(id as nat) + ": "@ + text + "\n"@
}

/// Format one echoed line.
pub fn format_echo_line(id: PlayerId, text: &String) -> (r: String)
    ensures
        r@ == echo_line(id, text@),
{
    let line = decimal_string(id);
    let line = line.concat(": ");
    let line = line.concat(text.as_str());
    let line = line.concat("\n");
    line
}

/// The text one turn entry carries: the payload's characters, or the
/// timeout marker for a player that never answered.
pub open spec fn msg_text(m: PlayerMsg) -> Seq<char> {
    match m.data {
        Option::Some(d) => d.value@,
        Option::None => "TIMEOUT"@,
    }
}

/// Whether the entry's text reads "stop" in any letter case.
pub open spec fn msg_says_stop(m: PlayerMsg) -> bool {
    is_stop_text(msg_text(m))
}

/// The client list with every occurrence of the player removed.
pub open spec fn clients_without(clients: Seq<PlayerId>, p: PlayerId) -> Seq<PlayerId>
    decreases clients.len(),
{
    if clients.len() == 0 {
        clients
    } else if clients[0] == p {
        clients_without(clients.drop_first(), p)
    } else {
        seq![clients[0]] + clients_without(clients.drop_first(), p)
    }
}

/// The echo rule for one turn entry: a player who said "stop" is kicked
/// and struck off the client list first; then the entry's line is echoed
/// to every remaining client, in list order.
pub fn echo_step_one(clients: &mut Vec<PlayerId>, msg: &PlayerMsg, out: &mut Vec<HostMsg>)
    ensures
        ({
            let said_stop = msg_says_stop(*msg);
            let after = if said_stop {
                clients_without(old(clients)@, msg.id)
            } else {
                old(clients)@
            };
            let kicks: int = if said_stop {
                1int
            } else {
                0int
            };
            &&& final(clients)@ == after
            &&& final(out)@.len() == old(out)@.len() + kicks + after.len()
            &&& final(out)@.take(old(out)@.len() as int) == old(out)@
            &&& (said_stop ==> final(out)@[old(out)@.len() as int] == HostMsg::Kick(msg.id))
            &&& (forall|j: int| 0 <= j < after.len()
                ==> (#[trigger] final(out)@[old(out)@.len() + kicks + j]
                    matches HostMsg::Data(d, target) && target == Some(after[j])
                    && d.value@ == echo_line(msg.id, msg_text(*msg))))
        }),
{
    let content = content_of(clone_opt_data(&msg.data));
    let ghost out0 = out@;
    let ghost clients0 = clients@;
    if is_stop(&content) {
        out.push(HostMsg::kick(msg.id));
        let mut kept: Vec<PlayerId> = Vec::new();
        let mut j: usize = 0;
        proof {
            assert(clients0.skip(0) =~= clients0);
            assert(kept@ + clients_without(clients0.skip(0), msg.id) =~= clients_without(
                clients0,
                msg.id,
            ));
        }
        while j < clients.len()
            invariant
                j <= clients@.len(),
                clients@ == clients0,
                kept@ + clients_without(clients0.skip(j as int), msg.id) == clients_without(
                    clients0,
                    msg.id,
                ),
            decreases clients@.len() - j,
        {
            proof {
                assert(clients0.skip(j as int)[0] == clients0[j as int]);
                assert(clients0.skip(j as int).drop_first() =~= clients0.skip(j as int + 1));
            }
            if clients[j] != msg.id {
                kept.push(clients[j]);
                proof {
                    assert(kept@ + clients_without(clients0.skip(j as int + 1), msg.id)
                        =~= clients_without(clients0, msg.id));
                }
            }
            j = j + 1;
        }
        proof {
            assert(clients0.skip(j as int) =~= Seq::<PlayerId>::empty());
            assert(kept@ =~= kept@ + clients_without(clients0.skip(j as int), msg.id));
        }
        *clients = kept;
    }
    let ghost after = clients@;
    let ghost mid = out@;
    let mut j: usize = 0;
    while j < clients.len()
        invariant
            j <= clients@.len(),
            clients@ == after,
            clients0 == old(clients)@,
            out0 == old(out)@,
            after == (if msg_says_stop(*msg) {
                clients_without(clients0, msg.id)
            } else {
                clients0
            }),
            mid == out0 + (if msg_says_stop(*msg) {
                seq![HostMsg::Kick(msg.id)]
            } else {
                Seq::<HostMsg>::empty()
            }),
            content@ == msg_text(*msg),
            out@.len() == mid.len() + j,
            out@.take(mid.len() as int) == mid,
            forall|k: int| 0 <= k < j ==> (#[trigger] out@[mid.len() + k]
                matches HostMsg::Data(d, target) && target == Some(after[k]) && d.value@
                == echo_line(msg.id, msg_text(*msg))),
        decreases clients@.len() - j,
    {
        let line = format_echo_line(msg.id, &content);
        out.push(HostMsg::Data(Data { value: line }, Some(clients[j])));
        j = j + 1;
        proof {
            assert(out@.take(mid.len() as int) =~= mid);
        }
    }
    proof {
        assert(mid =~= out0 + (if msg_says_stop(*msg) {
            seq![HostMsg::Kick(msg.id)]
        } else {
            Seq::<HostMsg>::empty()
        }));
        assert(final(out)@.take(out0.len() as int) =~= out0);
        if msg_says_stop(*msg) {
            assert(final(out)@[out0.len() as int] == mid[out0.len() as int]) by {
                assert(final(out)@.take(mid.len() as int)[out0.len() as int]
                    == final(out)@[out0.len() as int]);
            }
        }
    }
}

/// The echo rule for game over: the final value appears exactly when no
/// client is left.
pub fn echo_is_done(clients: &Vec<PlayerId>) -> (r: Option<String>)
    ensures
        r is Some <==> clients@.len() == 0,
        (r matches Some(v) ==> v@ == "{\"testing\":123}"@),
{
    if clients.len() == 0 {
        Some(String::from_str("{\"testing\":123}"))
    } else {
        None
    }
}

/// The echo controller's fixed state note.
pub fn echo_state() -> (r: String)
    ensures
        r@ == "{\"Some\":\"players\"}"@,
{
    String::from_str("{\"Some\":\"players\"}")
}

/// The message text a turn entry carries, with a timeout marker for a
/// player that never answered.
pub fn content_of(data: Option<Data>) -> (r: String)
    ensures
        (data matches Some(d) ==> r@ == d.value@),
        data is None ==> r@ == "TIMEOUT"@,
{
    match data {
        Some(d) => d.value,
        None => String::from_str("TIMEOUT"),
    }
}

/// The echo demo's game rules: echo every line to every remaining player,
/// kick whoever says "stop", and end once nobody is left.
#[derive(Debug)]
pub struct Echo {
    pub clients: Vec<PlayerId>,
}

impl Echo {
    /// An echo game over the given players.
    pub fn new(clients: Vec<PlayerId>) -> (r: Echo)
        ensures
            r.clients@ == clients@,
    {
        Echo { clients }
    }
}

impl Controller for Echo {
    fn on_step(&mut self, turn: Vec<PlayerMsg>) -> Vec<HostMsg> {
        let mut messages: Vec<HostMsg> = Vec::new();
        let mut i: usize = 0;
        while i < turn.len()
            decreases turn@.len() - i,
        {
            echo_step_one(&mut self.clients, &turn[i], &mut messages);
            i = i + 1;
        }
        messages
    }

    fn on_connect(&mut self, _player: PlayerId) -> Vec<HostMsg> {
        Vec::new()
    }

    fn on_disconnect(&mut self, _player: PlayerId) -> Vec<HostMsg> {
        Vec::new()
    }

    fn get_state(&mut self) -> String {
        echo_state()
    }

    fn is_done(&mut self) -> Option<String> {
        echo_is_done(&self.clients)
    }
}

/// Copy a turn entry's payload.
fn clone_opt_data(data: &Option<Data>) -> (r: Option<Data>)
    ensures
        r == *data,
{
    match data {
        Some(d) => Some(Data { value: d.value.clone() }),
        None => None,
    }
}

} // verus!
