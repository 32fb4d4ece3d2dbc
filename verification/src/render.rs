//! Rendering of outbound events into their wire form: an event-name tag and
//! a JSON data string, exactly as the downstream protocol requires.
//!
//! The JSON shapes are fixed templates; the only variable parts are the
//! message identifier, the delta text, the stop reason, the error message
//! (each embedded as a JSON string with the required escaping) and the
//! output-token count (embedded as a decimal numeral).

use vstd::prelude::*;

use crate::events::{OutEvent, OutEventView};

verus! {

/// The hexadecimal digit for `d` (lower case), for `d < 16`.
pub open spec fn hex_digit(d: nat) -> char {
    if d < 10 {
        ((48 + d) as u8) as char
    } else {
        ((87 + d) as u8) as char
    }
}

/// How one character appears inside a JSON string: quote and backslash are
/// escaped, the named control characters take their short forms, the other
/// control characters take the four-digit form, everything else stands as
/// itself.
pub open spec fn escape_char(c: char) -> Seq<char> {
    if c == '"' {
        seq!['\\', '"']
    } else if c == '\\' {
        seq!['\\', '\\']
    } else if c == '\n' {
        seq!['\\', 'n']
    } else if c == '\r' {
        seq!['\\', 'r']
    } else if c == '\t' {
        seq!['\\', 't']
    } else if (c as u32) < 32 {
        seq!['\\', 'u', '0', '0', hex_digit(((c as u32) / 16) as nat), hex_digit(
            ((c as u32) % 16) as nat,
        )]
    } else {
        seq![c]
    }
}

/// A whole character sequence escaped for embedding in a JSON string.
pub open spec fn escape_str(s: Seq<char>) -> Seq<char>
    decreases s.len(),
{
    if s.len() == 0 {
        Seq::<char>::empty()
    } else {
        escape_char(s[0]) + escape_str(s.drop_first())
    }
}

/// A JSON string literal: the escaped text between double quotes.
pub open spec fn json_quote(s: Seq<char>) -> Seq<char> {
    seq!['"'] + escape_str(s) + seq!['"']
}

/// The decimal numeral of `n`, most significant digit first.
pub open spec fn dec_str(n: nat) -> Seq<char>
    decreases n,
{
    if n < 10 {
        seq![((48 + n) as u8) as char]
    } else {
        dec_str(n / 10).push(((48 + n % 10) as u8) as char)
    }
}

/// Escaping one more character appends its escape form.
pub proof fn lemma_escape_str_snoc(s: Seq<char>, c: char)
    ensures
        escape_str(s.push(c)) == escape_str(s) + escape_char(c),
    decreases s.len(),
{
    if s.len() == 0 {
        assert(s.push(c)[0] == c);
        assert(s.push(c).drop_first() =~= Seq::<char>::empty());
        assert(escape_str(Seq::<char>::empty()) =~= Seq::<char>::empty());
        assert(escape_str(s.push(c)) =~= escape_str(s) + escape_char(c));
    } else {
        assert(s.push(c).drop_first() =~= s.drop_first().push(c));
        lemma_escape_str_snoc(s.drop_first(), c);
        assert(s.push(c)[0] == s[0]);
        assert(escape_str(s.push(c)) =~= escape_str(s) + escape_char(c));
    }
}

/// Relies on `String::push`: appends exactly one character.
#[verifier::external_body]
fn push_char(out: &mut String, c: char)
    ensures
        final(out)@ == old(out)@ + seq![c],
{
    out.push(c);
}

/// Appends `s`, escaped for a JSON string, onto `out`.
fn append_escaped(out: &mut String, s: &str)
    ensures
        final(out)@ == old(out)@ + escape_str(s@),
{
    let ghost base = out@;
    let n = s.unicode_len();
    let mut i: usize = 0;
    proof {
        assert(s@.take(0) =~= Seq::<char>::empty());
        assert(escape_str(Seq::<char>::empty()) =~= Seq::<char>::empty());
        assert(base + escape_str(s@.take(0)) =~= base);
    }
    while i < n
        invariant
            0 <= i <= n,
            n == s@.len(),
            out@ == base + escape_str(s@.take(i as int)),
        decreases n - i,
    {
        let c = s.get_char(i);
        let code = c as u32;
        if c == '"' {
            push_char(out, '\\');
            push_char(out, '"');
        } else if c == '\\' {
            push_char(out, '\\');
            push_char(out, '\\');
        } else if c == '\n' {
            push_char(out, '\\');
            push_char(out, 'n');
        } else if c == '\r' {
            push_char(out, '\\');
            push_char(out, 'r');
        } else if c == '\t' {
            push_char(out, '\\');
            push_char(out, 't');
        } else if code < 32 {
            push_char(out, '\\');
            push_char(out, 'u');
            push_char(out, '0');
            push_char(out, '0');
            push_char(out, hex_digit_exec((code / 16) as u8));
            push_char(out, hex_digit_exec((code % 16) as u8));
        } else {
            push_char(out, c);
        }
        proof {
            lemma_escape_str_snoc(s@.take(i as int), c);
            assert(s@.take(i as int).push(c) =~= s@.take(i + 1));
            assert(out@ =~= base + escape_str(s@.take(i + 1)));
        }
        i = i + 1;
    }
    proof {
        assert(s@.take(n as int) =~= s@);
    }
}

/// The hexadecimal digit character for `d < 16`.
fn hex_digit_exec(d: u8) -> (c: char)
    requires
        d < 16,
    ensures
        c == hex_digit(d as nat),
{
    if d < 10 {
        (48 + d) as char
    } else {
        (87 + d) as char
    }
}

/// Appends the decimal numeral of `n` onto `out`.
fn append_u64(out: &mut String, n: u64)
    ensures
        final(out)@ == old(out)@ + dec_str(n as nat),
    decreases n,
{
    if n < 10 {
        push_char(out, (48 + (n as u8)) as char);
    } else {
        append_u64(out, n / 10);
        push_char(out, (48 + ((n % 10) as u8)) as char);
        proof {
            assert(out@ =~= old(out)@ + dec_str(n as nat));
        }
    }
}

/// The event-name tag of one outbound event.
pub open spec fn event_name(v: OutEventView) -> Seq<char> {
    match v {
        OutEventView::MessageStart { .. } => "message_start"@,
        OutEventView::ContentBlockStart => "content_block_start"@,
        OutEventView::ContentDelta { .. } => "content_block_delta"@,
        OutEventView::ContentBlockStop => "content_block_stop"@,
        OutEventView::MessageDelta { .. } => "message_delta"@,
        OutEventView::MessageStop => "message_stop"@,
        OutEventView::Error { .. } => "error"@,
    }
}

/// The JSON data string of one outbound event.
pub open spec fn event_json(v: OutEventView) -> Seq<char> {
    match v {
        OutEventView::MessageStart { message_id } => {
            "{\"type\":\"message_start\",\"message\":{\"id\":"@ + json_quote(message_id)
                + ",\"type\":\"message\",\"role\":\"assistant\",\"model\":\"local-model\",\"content\":[],\"stop_reason\":null,\"stop_sequence\":null,\"usage\":{\"input_tokens\":0,\"output_tokens\":0}}}"@
        },
        OutEventView::ContentBlockStart => {
            "{\"type\":\"content_block_start\",\"index\":0,\"content_block\":{\"type\":\"text\",\"text\":\"\"}}"@
        },
        OutEventView::ContentDelta { text } => {
            "{\"type\":\"content_block_delta\",\"index\":0,\"delta\":{\"type\":\"text_delta\",\"text\":"@
                + json_quote(text) + "}}"@
        },
        OutEventView::ContentBlockStop => {
            "{\"type\":\"content_block_stop\",\"index\":0}"@
        },
        OutEventView::MessageDelta { stop_reason, output_tokens } => {
            "{\"type\":\"message_delta\",\"delta\":{\"stop_reason\":"@ + json_quote(stop_reason)
                + ",\"stop_sequence\":null},\"usage\":{\"output_tokens\":"@ + dec_str(output_tokens)
                + "}}"@
        },
        OutEventView::MessageStop => {
            "{\"type\":\"message_stop\"}"@
        },
        OutEventView::Error { message } => {
            "{\"type\":\"error\",\"error\":{\"type\":\"api_error\",\"message\":"@ + json_quote(
                message,
            ) + "}}"@
        },
    }
}

/// Renders one outbound event into its event-name tag and JSON data string.
pub fn render_event(e: &OutEvent) -> (r: (String, String))
    ensures
        r.0@ == event_name(e@),
        r.1@ == event_json(e@),
{
    match e {
        OutEvent::MessageStart { message_id } => {
            let mut data = String::from_str("{\"type\":\"message_start\",\"message\":{\"id\":");
            push_char(&mut data, '"');
            append_escaped(&mut data, message_id.as_str());
            push_char(&mut data, '"');
            data.append(
                ",\"type\":\"message\",\"role\":\"assistant\",\"model\":\"local-model\",\"content\":[],\"stop_reason\":null,\"stop_sequence\":null,\"usage\":{\"input_tokens\":0,\"output_tokens\":0}}}",
            );
            proof {
                assert(data@ =~= event_json(e@));
            }
            (String::from_str("message_start"), data)
        },
        OutEvent::ContentBlockStart => {
            (
                String::from_str("content_block_start"),
                String::from_str(
                    "{\"type\":\"content_block_start\",\"index\":0,\"content_block\":{\"type\":\"text\",\"text\":\"\"}}",
                ),
            )
        },
        OutEvent::ContentDelta { text } => {
            let mut data = String::from_str(
                "{\"type\":\"content_block_delta\",\"index\":0,\"delta\":{\"type\":\"text_delta\",\"text\":",
            );
            push_char(&mut data, '"');
            append_escaped(&mut data, text.as_str());
            push_char(&mut data, '"');
            data.append("}}");
            proof {
                assert(data@ =~= event_json(e@));
            }
            (String::from_str("content_block_delta"), data)
        },
        OutEvent::ContentBlockStop => {
            (
                String::from_str("content_block_stop"),
                String::from_str("{\"type\":\"content_block_stop\",\"index\":0}"),
            )
        },
        OutEvent::MessageDelta { stop_reason, output_tokens } => {
            let mut data = String::from_str(
                "{\"type\":\"message_delta\",\"delta\":{\"stop_reason\":",
            );
            push_char(&mut data, '"');
            append_escaped(&mut data, stop_reason.as_str());
            push_char(&mut data, '"');
            data.append(",\"stop_sequence\":null},\"usage\":{\"output_tokens\":");
            append_u64(&mut data, *output_tokens);
            data.append("}}");
            proof {
                assert(data@ =~= event_json(e@));
            }
            (String::from_str("message_delta"), data)
        },
        OutEvent::MessageStop => {
            (String::from_str("message_stop"), String::from_str("{\"type\":\"message_stop\"}"))
        },
        OutEvent::Error { message } => {
            let mut data = String::from_str(
                "{\"type\":\"error\",\"error\":{\"type\":\"api_error\",\"message\":",
            );
            push_char(&mut data, '"');
            append_escaped(&mut data, message.as_str());
            push_char(&mut data, '"');
            data.append("}}");
            proof {
                assert(data@ =~= event_json(e@));
            }
            (String::from_str("error"), data)
        },
    }
}

} // verus!
