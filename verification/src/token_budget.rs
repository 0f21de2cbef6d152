//! Shared token estimates for sliding window, preflight degrade, and output budgeting.
//!
//! Ratios such as "3.5 characters per token" are kept as exact fractions
//! (`chars * 2 / 7`, rounded up), so the estimates are integer arithmetic.
use vstd::prelude::*;

use crate::models::{views, ChatMessage, MessageView};
use crate::text::{char_count, chars_of, contains, contains_str, str_eq};

verus! {

pub open spec fn u32_max() -> int {
    0xffff_ffff
}

/// `u32` saturation of an integer.
pub open spec fn sat_u32(x: int) -> int {
    if x > u32_max() {
        u32_max()
    } else if x < 0 {
        0
    } else {
        x
    }
}

/// `u32::saturating_add`.
pub open spec fn sat_add(a: int, b: int) -> int {
    sat_u32(a + b)
}

/// Ceiling of `a / b` for positive `b`.
pub open spec fn ceil_div(a: int, b: int) -> int {
    (a + b - 1) / b
}

/// Tokens for `chars` characters at `den / num` characters per token:
/// zero for an empty text, otherwise at least one.
pub open spec fn text_tokens(chars: int, num: int, den: int) -> int {
    if chars == 0 {
        0
    } else {
        let t = sat_u32(ceil_div(chars * num, den));
        if t < 1 {
            1
        } else {
            t
        }
    }
}

/// Token estimate of a message body before images are added.
pub open spec fn message_base_tokens(role: Seq<char>, content: Seq<char>) -> int {
    let n = content.len() as int;
    if contains(content, "[Tool result:"@) {
        sat_add(text_tokens(n, 1, 3), 64)
    } else if contains(content, "tool_call"@) || (contains(content, "\"name\":"@) && contains(
        content,
        "\"arguments\""@,
    )) {
        sat_add(text_tokens(n, 5, 16), 32)
    } else if role == "assistant"@ && contains(content, "```"@) {
        text_tokens(n, 10, 33)
    } else if role == "system"@ {
        text_tokens(n, 5, 18)
    } else {
        text_tokens(n, 2, 7)
    }
}

/// Token estimate of one message: body plus 500 per attached image.
pub open spec fn message_tokens(m: MessageView) -> int {
    sat_add(
        message_base_tokens(m.role, m.content),
        sat_u32((m.images.len() as u32) as int * 500),
    )
}

/// Token estimate of the system block (base prompt, memory, retrieved excerpts).
pub open spec fn system_tokens(system: Option<Seq<char>>, memory: Seq<char>, retrieved: Seq<char>) -> int {
    let extra = match system {
        Some(s) => s.len() as int,
        None => 0,
    };
    sat_add(text_tokens(memory.len() + retrieved.len() + extra, 2, 7), 32)
}

/// `u32` saturating sum of the message estimates.
pub open spec fn messages_tokens(ms: Seq<MessageView>) -> int
    decreases ms.len(),
{
    if ms.len() == 0 {
        0
    } else {
        sat_add(messages_tokens(ms.drop_last()), message_tokens(ms.last()))
    }
}

/// Ceiling of `chars * num / den`, saturated to `u32`.
fn ratio_tokens(chars: u128, num: u64, den: u64) -> (r: u32)
    requires
        chars < 0x1_0000_0000_0000_0000_0000,
        1 <= num <= 16,
        1 <= den <= 64,
    ensures
        r == text_tokens(chars as int, num as int, den as int),
{
    if chars == 0 {
        return 0;
    }
    let c = chars;
    assert(c * (num as u128) <= 0x1_0000_0000_0000_0000_0000 * 16) by (nonlinear_arith)
        requires
            c <= 0x1_0000_0000_0000_0000_0000,
            num <= 16,
    ;
    let prod = c * (num as u128);
    let q = (prod + (den as u128) - 1) / (den as u128);
    let t: u32 = if q > 0xffff_ffff {
        0xffff_ffff
    } else {
        q as u32
    };
    if t < 1 {
        1
    } else {
        t
    }
}

/// `u32::saturating_add` with its specification.
pub fn add_sat(a: u32, b: u32) -> (r: u32)
    ensures
        r == sat_add(a as int, b as int),
{
    a.saturating_add(b)
}

/// Estimate tokens for one chat message (mixed Cyrillic/Latin, tools, images).
pub fn estimate_message_tokens(m: &ChatMessage) -> (r: u32)
    ensures
        r == message_tokens(m@),
{
    let content = chars_of(m.content.as_str());
    let chars = content.len();
    let images = m.images.len() as u32;
    let base = if contains_str(content.as_slice(), "[Tool result:") {
        add_sat(ratio_tokens(chars as u128, 1, 3), 64)
    } else if contains_str(content.as_slice(), "tool_call") || (contains_str(
        content.as_slice(),
        "\"name\":",
    ) && contains_str(content.as_slice(), "\"arguments\"")) {
        add_sat(ratio_tokens(chars as u128, 5, 16), 32)
    } else if str_eq(m.role.as_str(), "assistant") && contains_str(content.as_slice(), "```") {
        ratio_tokens(chars as u128, 10, 33)
    } else if str_eq(m.role.as_str(), "system") {
        ratio_tokens(chars as u128, 5, 18)
    } else {
        ratio_tokens(chars as u128, 2, 7)
    };
    let prod = (images as u64) * 500;
    let img: u32 = if prod > 0xffff_ffff {
        0xffff_ffff
    } else {
        prod as u32
    };
    add_sat(base, img)
}

/// Token estimate of the system block.
pub fn estimate_system_tokens(system: Option<&str>, memory: &str, retrieved: &str) -> (r: u32)
    ensures
        r == system_tokens(
            match system {
                Some(s) => Some(s@),
                None => None,
            },
            memory@,
            retrieved@,
        ),
{
    let m = char_count(memory);
    let rt = char_count(retrieved);
    let s = match system {
        Some(s) => char_count(s),
        None => 0,
    };
    let total = (m as u128) + (rt as u128) + (s as u128);
    let t = ratio_tokens(total, 2, 7);
    add_sat(t, 32)
}

/// Sum of the message estimates, saturating.
pub fn estimate_messages_tokens(messages: &[ChatMessage]) -> (r: u32)
    ensures
        r == messages_tokens(views(messages@)),
{
    let mut total: u32 = 0;
    let mut i: usize = 0;
    while i < messages.len()
        invariant
            i <= messages.len(),
            total == messages_tokens(views(messages@.subrange(0, i as int))),
        decreases messages.len() - i,
    {
        let t = estimate_message_tokens(&messages[i]);
        assert(views(messages@.subrange(0, i + 1)).drop_last() =~= views(
            messages@.subrange(0, i as int),
        ));
        total = add_sat(total, t);
        i = i + 1;
    }
    assert(messages@.subrange(0, messages.len() as int) =~= messages@);
    total
}

/// Raw input estimate for UI meters and sliding-window budgeting.
pub fn estimate_chat_input_tokens(
    messages: &[ChatMessage],
    base_system: Option<&str>,
    memory: &str,
    retrieved: &str,
) -> (r: u32)
    ensures
        r == sat_add(
            messages_tokens(views(messages@)),
            system_tokens(
                match base_system {
                    Some(s) => Some(s@),
                    None => None,
                },
                memory@,
                retrieved@,
            ),
        ),
{
    let msg = estimate_messages_tokens(messages);
    let sys = estimate_system_tokens(base_system, memory, retrieved);
    add_sat(msg, sys)
}

/// Conservative preflight estimate: 6% safety margin (rounded up) plus 64 protocol tokens.
pub open spec fn preflight_tokens(raw: int) -> int {
    sat_add(ceil_div(raw * 106, 100), 64)
}

/// Conservative estimate for preflight degrade — triggers slightly before real overflow.
pub fn preflight_input_tokens(raw_estimate: u32) -> (r: u32)
    ensures
        r == preflight_tokens(raw_estimate as int),
        r > raw_estimate || r == u32::MAX,
{
    let scaled = ((raw_estimate as u64) * 106 + 99) / 100;
    let s: u32 = if scaled > 0xffff_ffff {
        0xffff_ffff
    } else {
        scaled as u32
    };
    s.saturating_add(64)
}

/// Every attached image adds 500 tokens to a message's estimate (up to the `u32`
/// ceiling): one more image raises the estimate by exactly 500, and the images alone
/// account for at least 500 each.
pub proof fn law_each_image_costs_500(m: MessageView, img: crate::models::ChatImage)
    requires
        m.images.len() + 1 <= u32::MAX,
    ensures
        message_tokens(MessageView { images: m.images.push(img), ..m }) == sat_add(message_tokens(m), 500),
        message_tokens(m) >= (if 500 * m.images.len() <= u32::MAX { (500 * m.images.len()) as int } else { u32::MAX as int }),
{
    let b = message_base_tokens(m.role, m.content);
    assert(0 <= b <= u32::MAX);
    let k = m.images.len() as int;
    assert((m.images.len() as u32) as int == k);
    let m2 = MessageView { images: m.images.push(img), ..m };
    assert((m2.images.len() as u32) as int == k + 1);
}

} // verus!
