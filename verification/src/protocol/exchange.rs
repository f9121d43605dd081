//! Both sides of an exchange between peers: what one of them writes, the other understands.

use crate::protocol::client::{
    legacy_answer, named_file, queue_answer, request_of, PeerRequestView, QueueOutcome,
};
use crate::protocol::messages::{peer_payload, PeerMessageView};
use crate::protocol::peer::{
    denial, handshake_next, negotiation_answer, negotiation_next, peer_init, pierce_firewall, quiet,
    queue_place, refused_transfer, transfer_next, Handshake, HandshakeMoveView, InputView,
    Negotiating, NegotiationError, NegotiationMoveView, NegotiationView, TransferMoveView, Want,
};
use crate::text::{ascii_text, decimal, lowercase, occurs, occurs_at};
use crate::wire::{
    frame, law_string_round_trip, lemma_u32_round_trip, step_string, string_field, u32_bytes,
    u32_value, Step,
};
use vstd::prelude::*;
use vstd::utf8::{encode_utf8, is_ascii_chars, is_ascii_chars_encode_utf8};

verus! {

/// The code of a message.
pub open spec fn code_of(message: Seq<u8>) -> u32 {
    u32_value(message.skip(4))
}

/// The data of a message: what follows its length and its code.
pub open spec fn data_of(message: Seq<u8>) -> Seq<u8> {
    message.skip(8)
}

/// A text fits its length field.
pub open spec fn fits(s: Seq<char>) -> bool {
    encode_utf8(s).len() < 0x1_0000_0000
}

/// A frame holds its code and its data.
proof fn lemma_frame_parts(code: u32, data: Seq<u8>)
    ensures
        code_of(frame(code, data)) == code,
        data_of(frame(code, data)) == data,
{
    lemma_u32_round_trip(code, data);
    assert(frame(code, data).skip(4) =~= u32_bytes(code) + data);
    assert(frame(code, data).skip(8) =~= data);
}

/// A text at the end of a message is read back.
proof fn lemma_last_text(s: Seq<char>)
    requires
        fits(s),
    ensures
        step_string(string_field(s)) == Step::Done(s, Seq::<u8>::empty()),
        named_file(string_field(s)) == Some(s),
{
    law_string_round_trip(s, Seq::empty());
    assert(string_field(s) + Seq::<u8>::empty() =~= string_field(s));
}

/// A short text of ASCII characters fits its length field.
proof fn lemma_short_text(s: Seq<char>)
    requires
        is_ascii_chars(s),
        s.len() < 100,
    ensures
        fits(s),
{
    is_ascii_chars_encode_utf8(s);
}

/// A search that we send to a peer is understood as a search, with its token and its query.
pub proof fn law_search_request_is_understood(
    token: u32,
    query: Seq<char>,
    username: Seq<char>,
    addr: Seq<char>,
)
    requires
        fits(query),
    ensures
        peer_payload(PeerMessageView::FileSearchRequest { token, query }) matches Some((code, data))
            && request_of(code.number() as u32, data, username, addr) == (PeerRequestView::Search {
            token,
            query,
        }),
{
    lemma_last_text(query);
    lemma_u32_round_trip(token, string_field(query));
}

/// A request to queue an upload is understood as one, with the name of the file.
pub proof fn law_queue_request_is_understood(
    filename: Seq<char>,
    username: Seq<char>,
    addr: Seq<char>,
)
    requires
        fits(filename),
    ensures
        ({
            let message = frame(43, string_field(filename));
            request_of(code_of(message), data_of(message), username, addr)
                == (PeerRequestView::Queue { filename })
        }),
        peer_payload(PeerMessageView::QueueUpload { filename }) matches Some((code, data)) && frame(
            code.number() as u32,
            data,
        ) == frame(43, string_field(filename)),
{
    lemma_frame_parts(43, string_field(filename));
    lemma_last_text(filename);
}

/// A transfer request of the old kind is understood as one, with its token and the name of
/// the file.
pub proof fn law_transfer_request_is_understood(
    token: u32,
    filename: Seq<char>,
    username: Seq<char>,
    addr: Seq<char>,
)
    requires
        fits(filename),
    ensures
        ({
            let message = frame(40, u32_bytes(0) + u32_bytes(token) + string_field(filename));
            request_of(code_of(message), data_of(message), username, addr)
                == (PeerRequestView::LegacyQueue { token, filename })
        }),
{
    let tail = u32_bytes(token) + string_field(filename);
    let data = u32_bytes(0) + u32_bytes(token) + string_field(filename);
    lemma_frame_parts(40, data);
    lemma_u32_round_trip(0, tail);
    lemma_u32_round_trip(token, string_field(filename));
    assert(data =~= u32_bytes(0) + tail);
    lemma_last_text(filename);
}

/// A place in our queue is read back as that place, and a download that waits for its turn
/// goes on waiting.
pub proof fn law_queue_place_is_read_back(filename: Seq<char>, place: u32, token: u32)
    requires
        fits(filename),
    ensures
        ({
            let answer = queue_answer(filename, QueueOutcome::Queued(place));
            &&& transfer_next(code_of(answer), data_of(answer)) == TransferMoveView::Wait
            &&& negotiation_answer(token, code_of(answer), data_of(answer)) == Ok::<
                NegotiationView,
                NegotiationError,
            >(
                NegotiationView::Queued {
                    transfer_token: token,
                    position: Some(place),
                    reason: "Position "@ + decimal(place as nat),
                },
            )
        }),
{
    let data = string_field(filename) + u32_bytes(place);
    lemma_frame_parts(44, data);
    law_string_round_trip(filename, u32_bytes(place));
    lemma_u32_round_trip(place, Seq::empty());
    assert(u32_bytes(place) + Seq::<u8>::empty() =~= u32_bytes(place));
    assert(queue_place(data) == Step::Done(place, Seq::<u8>::empty()));
}

/// A request that we refuse is read as denied, with our reason.
pub proof fn law_refusal_is_read_back(filename: Seq<char>, outcome: QueueOutcome, token: u32)
    requires
        fits(filename),
        !(outcome is Queued),
        outcome matches QueueOutcome::Rejected(reason) ==> fits(reason@),
    ensures
        ({
            let answer = queue_answer(filename, outcome);
            let reason = match outcome {
                QueueOutcome::Rejected(reason) => reason@,
                _ => "Sharing disabled"@,
            };
            &&& transfer_next(code_of(answer), data_of(answer)) == (TransferMoveView::Denied {
                reason,
            })
            &&& negotiation_answer(token, code_of(answer), data_of(answer)) == Ok::<
                NegotiationView,
                NegotiationError,
            >(
                NegotiationView::Denied { reason },
            )
        }),
{
    match outcome {
        QueueOutcome::Rejected(reason) => {
            lemma_denial_is_read(filename, reason@, token);
        },
        _ => {
            lemma_disabled_fits();
            lemma_denial_is_read(filename, "Sharing disabled"@, token);
        },
    }
}

/// The reason that we give where we do not share fits its length field.
proof fn lemma_disabled_fits()
    ensures
        fits("Sharing disabled"@),
{
    reveal_strlit("Sharing disabled");
    lemma_short_text("Sharing disabled"@);
}

/// A denial with a reason is read back.
proof fn lemma_denial_is_read(filename: Seq<char>, reason: Seq<char>, token: u32)
    requires
        fits(filename),
        fits(reason),
    ensures
        ({
            let answer = frame(50, string_field(filename) + string_field(reason));
            &&& transfer_next(code_of(answer), data_of(answer)) == (TransferMoveView::Denied {
                reason,
            })
            &&& negotiation_answer(token, code_of(answer), data_of(answer)) == Ok::<
                NegotiationView,
                NegotiationError,
            >(NegotiationView::Denied { reason })
        }),
{
    let data = string_field(filename) + string_field(reason);
    lemma_frame_parts(50, data);
    law_string_round_trip(filename, string_field(reason));
    lemma_last_text(reason);
    assert(denial(data) == Step::Done(reason, Seq::<u8>::empty()));
}

/// A reason that means a queue to a peer: one with the word in it, in any case of letters.
pub open spec fn speaks_of_a_queue(reason: Seq<char>) -> bool {
    occurs(lowercase(reason), "queued"@) || occurs(lowercase(reason), "queue"@)
}

/// Our answer to a transfer request of the old kind ends the negotiation of the peer with
/// our reason; where we queued the request, the peer takes it for queued, under its own
/// token.
pub proof fn law_old_answer_is_read_back(token: u32, asked: u32, outcome: QueueOutcome)
    requires
        !(outcome is Disabled),
        outcome matches QueueOutcome::Rejected(reason) ==> fits(reason@) && 9 + string_field(
            reason@,
        ).len() < 0x1_0000_0000,
    ensures
        legacy_answer(token, outcome) matches Some(answer) && {
            let n = u32_value(answer);
            &&& negotiation_next(asked, Negotiating::Code { len: n }, InputView::Word(41)) == (
            NegotiationMoveView::Read {
                want: Want::Word,
                state: Negotiating::ReplyToken { len: n },
            })
            &&& code_of(answer) == 41
            &&& negotiation_next(
                asked,
                Negotiating::ReplyAllowed { len: n },
                InputView::Byte(answer[12]),
            ) == (NegotiationMoveView::Read {
                want: Want::Data((n - 9) as u32),
                state: Negotiating::Reason,
            })
            &&& answer.skip(13).len() == n - 9
            &&& negotiation_next(
                asked,
                Negotiating::Reason,
                InputView::Data(answer.skip(13)),
            ) matches NegotiationMoveView::Done(result) && match outcome {
                QueueOutcome::Queued(_) => result == (NegotiationView::Queued {
                    transfer_token: asked,
                    position: None,
                    reason: "Queued"@,
                }),
                QueueOutcome::Rejected(reason) => result == if speaks_of_a_queue(reason@) {
                    (NegotiationView::Queued {
                        transfer_token: asked,
                        position: None,
                        reason: reason@,
                    })
                } else {
                    (NegotiationView::Denied { reason: reason@ })
                },
                QueueOutcome::Disabled => true,
            }
        },
{
    match outcome {
        QueueOutcome::Rejected(reason) => {
            lemma_old_answer(token, asked, reason@);
        },
        _ => {
            lemma_queued_speaks_of_a_queue();
            lemma_old_answer(token, asked, "Queued"@);
        },
    }
}

/// An answer with a reason ends the negotiation with what the reason makes of it.
proof fn lemma_old_answer(token: u32, asked: u32, reason: Seq<char>)
    requires
        fits(reason),
        9 + string_field(reason).len() < 0x1_0000_0000,
    ensures
        ({
            let answer = frame(41, u32_bytes(token).push(0) + string_field(reason));
            &&& code_of(answer) == 41
            &&& u32_value(answer) == 9 + string_field(reason).len()
            &&& answer[12] == 0
            &&& answer.skip(13) == string_field(reason)
        }),
        refused_transfer(asked, string_field(reason)) == if speaks_of_a_queue(reason) {
            Ok::<NegotiationView, NegotiationError>(
                NegotiationView::Queued { transfer_token: asked, position: None, reason },
            )
        } else {
            Ok(NegotiationView::Denied { reason })
        },
{
    let data = u32_bytes(token).push(0) + string_field(reason);
    let answer = frame(41, data);
    let n = (4 + data.len()) as u32;
    lemma_frame_parts(41, data);
    lemma_u32_round_trip(n, u32_bytes(41) + data);
    lemma_u32_round_trip(token, Seq::empty());
    assert(answer =~= u32_bytes(n) + (u32_bytes(41) + data));
    assert(answer[12] == 0);
    assert(answer.skip(13) =~= string_field(reason));
    lemma_last_text(reason);
}

/// The word that we put on a queued request speaks of a queue.
proof fn lemma_queued_speaks_of_a_queue()
    ensures
        occurs(lowercase("Queued"@), "queued"@),
        fits("Queued"@),
        string_field("Queued"@).len() == 10,
{
    reveal_strlit("Queued");
    reveal_strlit("queued");
    let s = "Queued"@;
    assert(ascii_text(s));
    let lower = lowercase(s);
    assert(lower =~= "queued"@);
    assert(lower.subrange(0, 6) =~= lower);
    assert(occurs_at(lower, "queued"@, 0));
    is_ascii_chars_encode_utf8(s);
}

/// A peer that pierces a firewall to reach us is answered with a PeerInit for files, and its
/// transfer token is waited for.
pub proof fn law_pierced_connection_is_answered(token: u32, our_username: Seq<char>)
    ensures
        ({
            let whole = pierce_firewall(token);
            &&& whole.len() == 4 + u32_value(whole)
            &&& handshake_next(
                Handshake::Incoming,
                InputView::Word(u32_value(whole)),
                our_username,
            ) == quiet(Want::Byte, Handshake::PierceType)
            &&& handshake_next(
                Handshake::PierceType,
                InputView::Byte(whole[4]),
                our_username,
            ) == quiet(Want::Word, Handshake::PierceToken)
            &&& u32_value(whole.skip(5)) == token
            &&& handshake_next(
                Handshake::PierceToken,
                InputView::Word(u32_value(whole.skip(5))),
                our_username,
            ) == (HandshakeMoveView::Read {
                send: peer_init(our_username, "F"@),
                want: Want::Word,
                state: Handshake::TransferToken,
            })
        }),
{
    let whole = pierce_firewall(token);
    lemma_u32_round_trip(5, seq![0u8] + u32_bytes(token));
    lemma_u32_round_trip(token, Seq::empty());
    assert(u32_bytes(token) + Seq::<u8>::empty() =~= u32_bytes(token));
    assert(whole =~= u32_bytes(5) + (seq![0u8] + u32_bytes(token)));
    assert(whole.skip(5) =~= u32_bytes(token));
}

} // verus!
