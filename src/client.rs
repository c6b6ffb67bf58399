use vstd::prelude::*;

use crate::message::{ClientRequest, Reply, RequestView};
use crate::operation::{OpResult, Operation, OperationView};
use crate::types::{ClientID, RequestID};
use vstd::slice::slice_to_vec;
use vstd::utf8::encode_utf8;

verus! {

/// What a client knows of itself: its identifier and the number of its next
/// request. Until its `Join` is answered the identifier is one the client picked
/// for itself, distinct from other clients', which its `Join` is known by; the
/// answer replaces it with the identifier the cluster assigned.
pub struct Client {
    pub client_id: ClientID,
    pub request_number: RequestID,
}

impl Client {
    /// A client that has not joined yet, known by `client_id` until it has, at
    /// request number 0.
    pub fn new(client_id: ClientID) -> (r: Client)
        ensures
            r.client_id == client_id,
            r.request_number == 0,
    {
        Client { client_id, request_number: 0 }
    }

    /// Takes in the reply to a request. The reply to the current request moves the
    /// client on to its next request number, and a successful `Join` hands it its
    /// identifier. A reply to any other request number changes nothing.
    pub fn on_reply(&mut self, reply: &Reply)
        ensures
            reply.request_number != old(self).request_number || old(self).request_number == u64::MAX
                ==> *final(self) == *old(self),
            reply.request_number == old(self).request_number && old(self).request_number < u64::MAX
                ==> {
                &&& final(self).request_number == old(self).request_number + 1
                &&& final(self).client_id == (match reply.result {
                    OpResult::JoinResult(Ok(id)) => id,
                    _ => old(self).client_id,
                })
            },
    {
        if reply.request_number != self.request_number || self.request_number == u64::MAX {
            return;
        }
        match reply.result {
            OpResult::JoinResult(Ok(id)) => {
                self.client_id = id;
            },
            _ => {},
        }
        self.request_number = self.request_number + 1;
    }
}

/// A character with the Unicode White_Space property: tab, line feed, vertical
/// tab, form feed, carriage return, space, next line, no-break space, ogham space
/// mark, the spaces U+2000 to U+200A, line separator, paragraph separator, narrow
/// no-break space, medium mathematical space and ideographic space.
pub open spec fn is_white_space(c: char) -> bool {
    let u = c as u32;
    ||| 9 <= u <= 13
    ||| u == 32
    ||| u == 0x85
    ||| u == 0xA0
    ||| u == 0x1680
    ||| 0x2000 <= u <= 0x200A
    ||| u == 0x2028
    ||| u == 0x2029
    ||| u == 0x202F
    ||| u == 0x205F
    ||| u == 0x3000
}

/// The words finished so far in `s`, and the word still open at its end.
pub open spec fn words_so_far(s: Seq<char>) -> (Seq<Seq<char>>, Seq<char>)
    decreases s.len(),
{
    if s.len() == 0 {
        (Seq::empty(), Seq::empty())
    } else {
        let (done, open) = words_so_far(s.drop_last());
        if is_white_space(s.last()) {
            if open.len() > 0 {
                (done.push(open), Seq::empty())
            } else {
                (done, Seq::empty())
            }
        } else {
            (done, open.push(s.last()))
        }
    }
}

/// The words of `s`: its maximal runs of characters other than white space, in
/// order, as `str::split_whitespace` yields them.
pub open spec fn whitespace_words(s: Seq<char>) -> Seq<Seq<char>> {
    let (done, open) = words_so_far(s);
    if open.len() > 0 {
        done.push(open)
    } else {
        done
    }
}

/// Relies on `str::split_whitespace`: the words of the text, that is its maximal
/// runs of characters without the Unicode White_Space property, in order.
#[verifier::external_body]
fn split_words(s: &str) -> (r: Vec<String>)
    ensures
        r@.map_values(|w: String| w@) == whitespace_words(s@),
{
    s.split_whitespace().map(|w| w.to_string()).collect()
}

/// The operation that the words of a command line name, if they name one: `Join`,
/// `Add key value`, `Update key value` or `Remove key`. Keys and values are the
/// UTF-8 bytes of their words.
pub open spec fn command_op(ws: Seq<Seq<char>>) -> Option<OperationView> {
    if ws.len() == 1 && ws[0] == seq!['J', 'o', 'i', 'n'] {
        Some(OperationView::Join)
    } else if ws.len() == 3 && ws[0] == seq!['A', 'd', 'd'] {
        Some(OperationView::Add { key: encode_utf8(ws[1]), value: encode_utf8(ws[2]) })
    } else if ws.len() == 3 && ws[0] == seq!['U', 'p', 'd', 'a', 't', 'e'] {
        Some(OperationView::Update { key: encode_utf8(ws[1]), value: encode_utf8(ws[2]) })
    } else if ws.len() == 2 && ws[0] == seq!['R', 'e', 'm', 'o', 'v', 'e'] {
        Some(OperationView::Remove { key: encode_utf8(ws[1]) })
    } else {
        None
    }
}

fn utf8_bytes(w: &String) -> (r: Vec<u8>)
    ensures
        r@ == encode_utf8(w@),
{
    slice_to_vec(w.as_str().as_bytes())
}

/// Reads a command line into a request of `state`'s client under its next request
/// number; `None` when the line is no command.
pub fn parse_command(input: &str, state: &Client) -> (r: Option<ClientRequest>)
    ensures
        match command_op(whitespace_words(input@)) {
            Some(op) => r is Some && r.unwrap()@ == (RequestView {
                client_id: state.client_id,
                request_number: state.request_number,
                op,
            }),
            None => r is None,
        },
{
    let ws = split_words(input);
    let ghost v = ws@.map_values(|w: String| w@);
    proof {
        reveal_strlit("Join");
        reveal_strlit("Add");
        reveal_strlit("Update");
        reveal_strlit("Remove");
    }
    let join = "Join".to_owned();
    let add = "Add".to_owned();
    let update = "Update".to_owned();
    let remove = "Remove".to_owned();
    assert(join@ =~= seq!['J', 'o', 'i', 'n']);
    assert(add@ =~= seq!['A', 'd', 'd']);
    assert(update@ =~= seq!['U', 'p', 'd', 'a', 't', 'e']);
    assert(remove@ =~= seq!['R', 'e', 'm', 'o', 'v', 'e']);
    let n = ws.len();
    if n == 0 {
        return None;
    }
    assert(v[0] == ws@[0]@);
    let op = if n == 1 && ws[0] == join {
        Operation::Join
    } else if n == 3 && ws[0] == add {
        assert(v[1] == ws@[1]@ && v[2] == ws@[2]@);
        Operation::Add { key: utf8_bytes(&ws[1]), value: utf8_bytes(&ws[2]) }
    } else if n == 3 && ws[0] == update {
        assert(v[1] == ws@[1]@ && v[2] == ws@[2]@);
        Operation::Update { key: utf8_bytes(&ws[1]), value: utf8_bytes(&ws[2]) }
    } else if n == 2 && ws[0] == remove {
        assert(v[1] == ws@[1]@);
        Operation::Remove { key: utf8_bytes(&ws[1]) }
    } else {
        return None;
    };
    Some(ClientRequest { client_id: state.client_id, request_number: state.request_number, op })
}

} // verus!
