//! What is read off a connection, and what is kept for one.

use vstd::prelude::*;

use super::text::{texts_are_cut_in_two, trimming_takes_off_white_space};
use crate::adapters::rest_api::http::{
    advanced, batch_text, begun, frames_text, header_noted, reason_text, response_text, HeadV,
    StepV,
};
use crate::adapters::rest_api::routes::ResponseV;
use crate::adapters::rest_api::stream::{
    encoded, lagged_frame_of, received, subscribed, BatchV, BroadcasterV, FrameV, SubscriberV,
};
use crate::json::json_text;
use crate::text::{any_space, decimal, has_prefix, is_space, lemma_position, lowercase, trim_end};

verus! {

/// A request line gives the method and the path; a query behind the path does not count.
pub proof fn request_lines_give_method_and_path(
    method: Seq<char>,
    path: Seq<char>,
    query: Seq<char>,
    version: Seq<char>,
)
    requires
        method.len() > 0,
        path.len() > 0,
        forall|i: int| 0 <= i < method.len() ==> !is_space(#[trigger] method[i]),
        forall|i: int|
            0 <= i < path.len() ==> !is_space(#[trigger] path[i]) && path[i] != '?' && path[i]
                != '#',
        forall|i: int| 0 <= i < query.len() ==> !is_space(#[trigger] query[i]),
    ensures
        ({
            let line = method + seq![' '] + path + seq!['?'] + query + seq![' '] + version;
            &&& begun(Some(line)) is Ok
            &&& begun(Some(line))->Ok_0.method == method
            &&& begun(Some(line))->Ok_0.path == path
            &&& begun(Some(line))->Ok_0.length is None
            &&& begun(Some(line))->Ok_0.authorization is None
        }),
        begun(None) is Err,
{
    let target = path + seq!['?'] + query;
    let line = method + seq![' '] + path + seq!['?'] + query + seq![' '] + version;
    let rest = seq![' '] + target + seq![' '] + version;
    assert(line =~= method + rest);
    assert(line[0] == method[0]);
    assert forall|j: int| 0 <= j < method.len() implies !any_space()(#[trigger] line[j]) by {
        assert(line[j] == method[j]);
    }
    assert(line[method.len() as int] == ' ');
    lemma_position(line, any_space(), method.len() as int);
    assert(line.take(method.len() as int) =~= method);
    assert(line.skip(method.len() as int) =~= rest);
    let tail = target + seq![' '] + version;
    reveal_with_fuel(crate::text::trim_start, 2);
    assert(rest.drop_first() =~= tail);
    assert(tail[0] == path[0]);
    assert forall|j: int| 0 <= j < target.len() implies !any_space()(#[trigger] tail[j]) by {
        assert(tail[j] == target[j]);
        if j < path.len() {
            assert(target[j] == path[j]);
        } else if j > path.len() {
            assert(target[j] == query[j - path.len() - 1]);
        } else {
            assert(target[j] == '?');
        }
    }
    assert(tail[target.len() as int] == ' ');
    lemma_position(tail, any_space(), target.len() as int);
    assert(tail.take(target.len() as int) =~= target);
    assert forall|j: int| 0 <= j < path.len() implies !crate::text::ends_path()(
        #[trigger] target[j],
    ) by {
        assert(target[j] == path[j]);
    }
    assert(target[path.len() as int] == '?');
    lemma_position(target, crate::text::ends_path(), path.len() as int);
    assert(target.take(path.len() as int) =~= path);
}

/// An empty line ends the head. A body that is longer than 65536 bytes is refused before it
/// is read, and any other is read in full.
pub proof fn bodies_are_read_up_to_a_limit(h: HeadV, n: nat)
    requires
        h.length == Some(n),
        h.bytes + 2 <= 8192,
    ensures
        n <= 65536 ==> advanced(h, Some(seq!['\r', '\n'])) == StepV::Body(h, n),
        n > 65536 ==> advanced(h, Some(seq!['\r', '\n'])) is Refused
            && advanced(h, Some(seq!['\r', '\n']))->Refused_0.status == 413,
{
    let l = seq!['\r', '\n'];
    reveal_with_fuel(crate::text::trim_end, 3);
    assert(l.drop_last() =~= seq!['\r']);
    assert(seq!['\r'].drop_last() =~= Seq::empty());
    assert(vstd::utf8::encode_utf8(l).len() == 2) by {
        reveal_with_fuel(vstd::utf8::encode_utf8, 3);
        assert(l.drop_first() =~= seq!['\n']);
        assert(seq!['\n'].drop_first() =~= Seq::empty());
    }
}

/// A head of more than 8192 bytes is refused, and so is one of 64 lines.
pub proof fn heads_are_read_up_to_a_limit(h: HeadV, line: Seq<char>)
    requires
        line.len() > 0,
    ensures
        h.bytes + vstd::utf8::encode_utf8(line).len() > 8192 ==> advanced(h, Some(line)) is Refused
            && advanced(h, Some(line))->Refused_0.status == 431,
        h.lines >= 63 && h.bytes + vstd::utf8::encode_utf8(line).len() <= 8192 && trim_end(
            line,
        ).len() > 0 ==> advanced(h, Some(line)) is Refused,
{
}

/// A length that is announced is noted, whatever the case of the header, and so is the
/// authorization; other headers do not matter.
pub proof fn headers_are_noted(h: HeadV, n: nat, token: Seq<char>)
    requires
        n <= 0xffff_ffff,
        token.len() > 0,
        !is_space(token[0]),
        !is_space(token.last()),
    ensures
        header_noted(h, "Content-Length: "@ + decimal(n)) == Ok::<
            HeadV,
            ResponseV,
        >(HeadV { length: Some(n), ..h }),
        header_noted(h, "Authorization: "@ + token) == Ok::<
            HeadV,
            ResponseV,
        >(HeadV { authorization: Some(token), ..h }),
{
    reveal_strlit("Content-Length");
    reveal_strlit("Authorization");
    reveal_strlit("Content-Length: ");
    reveal_strlit("Authorization: ");
    reveal_strlit("content-length");
    reveal_strlit("authorization");
    reveal_strlit("transfer-encoding");
    let a = "Content-Length"@;
    let b = "Authorization"@;
    let d = decimal(n);
    super::lower::lemma_decimal_plain(n);
    crate::text::decimal_is_parsed_back(n);
    assert("Content-Length: "@ =~= a + seq![':'] + seq![' ']);
    assert("Authorization: "@ =~= b + seq![':'] + seq![' ']);
    assert("Content-Length: "@ + d =~= a + seq![':'] + (seq![' '] + d));
    assert("Authorization: "@ + token =~= b + seq![':'] + (seq![' '] + token));
    texts_are_cut_in_two(a, seq![' '] + d, ':');
    texts_are_cut_in_two(b, seq![' '] + token, ':');
    trimming_takes_off_white_space(d, ' ');
    trimming_takes_off_white_space(token, ' ');
    assert(a[0] == 'C' && a.last() == 'h' && b[0] == 'A' && b.last() == 'n');
    trimming_takes_off_white_space(a, ' ');
    trimming_takes_off_white_space(b, ' ');
    assert(lowercase(a) =~= lowercase("content-length"@));
    assert(lowercase(b) =~= lowercase("authorization"@));
    assert(lowercase(b).len() == 13);
    assert(lowercase("content-length"@).len() == 14);
}

/// A mailbox holds the last 256 frames.
pub proof fn mailboxes_hold_so_many_frames(s: SubscriberV, f: FrameV)
    ensures
        s.queue.len() < 256 ==> received(s, f).queue == s.queue.push(f) && received(s, f).lagged
            == s.lagged,
        s.queue.len() >= 256 ==> received(s, f).queue == s.queue.drop_first().push(f) && received(
            s,
            f,
        ).lagged,
{
}

/// A frame is told as its name, then its data, then an empty line.
pub proof fn frames_are_written_as_events(fs: Seq<FrameV>, f: FrameV)
    ensures
        has_prefix(encoded(f), "event: "@ + f.event + "\n"@),
        encoded(f) == "event: "@ + f.event + "\ndata: "@ + json_text(f.data) + "\n\n"@,
        frames_text(fs.push(f)) == frames_text(fs) + encoded(f),
        frames_text(Seq::empty()).len() == 0,
{
    reveal_strlit("\n");
    reveal_strlit("\ndata: ");
    let head = "event: "@ + f.event;
    assert(encoded(f).take((head + "\n"@).len() as int) =~= head + "\n"@);
    assert(fs.push(f).drop_last() =~= fs);
}

/// Whoever missed frames is told so before the frames that came after; whoever has nothing
/// to read is kept alive; and after the end nothing is written.
pub proof fn batches_tell_of_a_gap_first(frames: Seq<FrameV>)
    ensures
        batch_text(BatchV::Frames { frames, lagged: true }) is Some,
        has_prefix(
            batch_text(BatchV::Frames { frames, lagged: true })->0,
            encoded(lagged_frame_of()),
        ),
        batch_text(BatchV::Frames { frames, lagged: true })->0.skip(
            encoded(lagged_frame_of()).len() as int,
        ) == frames_text(frames),
        batch_text(BatchV::Frames { frames, lagged: false }) == Some(frames_text(frames)),
        batch_text(BatchV::Idle) == Some(": keepalive\n\n"@),
        batch_text(BatchV::Done) is None,
{
    let gap = encoded(lagged_frame_of());
    let all = batch_text(BatchV::Frames { frames, lagged: true })->0;
    assert(all.take(gap.len() as int) =~= gap);
    assert(all.skip(gap.len() as int) =~= frames_text(frames));
    assert(Seq::<char>::empty() + frames_text(frames) =~= frames_text(frames));
}

/// Every subscriber gets a number of its own and an empty mailbox, and leaves the others
/// theirs.
pub proof fn subscribers_are_told_apart(b: BroadcasterV, i: int)
    requires
        b.next_id < u64::MAX,
        0 <= i < b.subscribers.len(),
    ensures
        ({
            let one = subscribed(b);
            let two = subscribed(one);
            &&& one.subscribers.len() == b.subscribers.len() + 1
            &&& one.subscribers.last().id == b.next_id
            &&& one.subscribers.last().queue.len() == 0
            &&& !one.subscribers.last().lagged
            &&& one.subscribers[i] == b.subscribers[i]
            &&& two.subscribers.last().id == one.subscribers.last().id + 1
        }),
{
}

/// A status is told with the words that go with it.
pub proof fn statuses_are_told_in_words(length: nat)
    ensures
        reason_text(200) == "OK"@,
        reason_text(202) == "Accepted"@,
        reason_text(400) == "Bad Request"@,
        reason_text(404) == "Not Found"@,
        reason_text(405) == "Method Not Allowed"@,
        reason_text(411) == "Length Required"@,
        reason_text(413) == "Payload Too Large"@,
        reason_text(422) == "Unprocessable Entity"@,
        reason_text(431) == "Request Header Fields Too Large"@,
        reason_text(503) == "Service Unavailable"@,
{
}

/// A response is its status line, its length in bytes, and its body, after which the
/// connection is closed.
pub proof fn responses_say_how_long_they_are(r: ResponseV)
    ensures
        response_text(r) == "HTTP/1.1 "@ + decimal(r.status as nat) + " "@ + reason_text(r.status)
            + "\r\nContent-Type: application/json\r\nContent-Length: "@ + decimal(
            vstd::utf8::encode_utf8(json_text(r.value)).len(),
        ) + "\r\nConnection: close\r\n\r\n"@ + json_text(r.value),
{
}

} // verus!
