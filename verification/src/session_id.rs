//! New session ids, and where the rollout of a new session goes.

use vstd::prelude::*;
use vstd::utf8::encode_utf8;

use crate::continuation::{has_letter, salvaged_id};
use crate::error::{unit_outcome, AppError, ErrorView};
use crate::gui_visibility::{is_hex_digit, is_hyphen_place, is_uuid};
use crate::stamps::{
    four_digit_year, is_digit, is_stamp, moment_texts, stamp_pattern, utc_text, MomentTexts,
};
use crate::text::{
    after_prefix, begins_with, find_from, join2, join5, lemma_find_from, strip_prefix, text_lt,
    texts,
};

verus! {

// ---------------------------------------------------------------------------
// Ids
// ---------------------------------------------------------------------------

/// The lower case hexadecimal digit of a number below 16.
pub open spec fn hex_char(number: u8) -> char {
    if number < 10 {
        (('0' as u8) + number) as char
    } else {
        (('a' as u8) + number - 10) as char
    }
}

/// The two hexadecimal digits of a byte.
pub open spec fn hex_pair(byte: u8) -> Seq<char> {
    seq![hex_char(byte / 16), hex_char(byte % 16)]
}

/// The hexadecimal digits of bytes.
pub open spec fn hex_text(bytes: Seq<u8>) -> Seq<char>
    decreases bytes.len(),
{
    if bytes.len() == 0 {
        Seq::empty()
    } else {
        hex_text(bytes.drop_last()) + hex_pair(bytes.last())
    }
}

/// The text of an id of 16 bytes, in groups of 4, 2, 2, 2 and 6 bytes.
pub open spec fn id_text(bytes: Seq<u8>) -> Seq<char> {
    hex_text(bytes.subrange(0, 4)) + "-"@ + hex_text(bytes.subrange(4, 6)) + "-"@ + hex_text(
        bytes.subrange(6, 8),
    ) + "-"@ + hex_text(bytes.subrange(8, 10)) + "-"@ + hex_text(bytes.subrange(10, 16))
}

/// The part of an id that sets ids of one millisecond apart, made of the time in
/// nanoseconds, the number of the process and the time in milliseconds.
pub open spec fn id_noise(ms: u64, nanos: u128, pid: u32) -> u128 {
    nanos ^ ((pid as u128) << 17u128) ^ ((ms as u128) << 37u128)
}

/// The bytes of an id: the time in milliseconds, then the noise from its lowest byte on,
/// with the marks of the id's version and variant set.
pub open spec fn id_bytes(ms: u64, nanos: u128, pid: u32) -> Seq<u8> {
    let noise = id_noise(ms, nanos, pid);
    seq![
        ((ms >> 40u64) & 0xFF) as u8,
        ((ms >> 32u64) & 0xFF) as u8,
        ((ms >> 24u64) & 0xFF) as u8,
        ((ms >> 16u64) & 0xFF) as u8,
        ((ms >> 8u64) & 0xFF) as u8,
        (ms & 0xFF) as u8,
        (((noise & 0xFF) as u8) & 0x0F) | 0x70,
        ((noise >> 8u128) & 0xFF) as u8,
        ((((noise >> 16u128) & 0xFF) as u8) & 0x3F) | 0x80,
        ((noise >> 24u128) & 0xFF) as u8,
        ((noise >> 32u128) & 0xFF) as u8,
        ((noise >> 40u128) & 0xFF) as u8,
        ((noise >> 48u128) & 0xFF) as u8,
        ((noise >> 56u128) & 0xFF) as u8,
        ((noise >> 64u128) & 0xFF) as u8,
        ((noise >> 72u128) & 0xFF) as u8,
    ]
}

fn hex_digit(number: u8) -> (ch: char)
    requires
        number < 16,
    ensures
        ch == hex_char(number),
{
    if number < 10 {
        (48u8 + number) as char
    } else {
        (87u8 + number) as char
    }
}

fn push_hex(text: &mut String, bytes: &Vec<u8>, from: usize, to: usize)
    requires
        from <= to <= bytes@.len(),
    ensures
        final(text)@ == old(text)@ + hex_text(bytes@.subrange(from as int, to as int)),
{
    let ghost before = text@;
    let mut at: usize = from;
    assert(bytes@.subrange(from as int, from as int) =~= Seq::empty());
    assert(before + Seq::<char>::empty() =~= before);
    while at < to
        invariant
            from <= at <= to <= bytes@.len(),
            text@ == before + hex_text(bytes@.subrange(from as int, at as int)),
        decreases to - at,
    {
        let ghost so_far = bytes@.subrange(from as int, at as int);
        let ghost more = bytes@.subrange(from as int, at + 1);
        assert(more.drop_last() =~= so_far);
        assert(more.last() == bytes@[at as int]);
        let ghost middle = text@;
        text.push(hex_digit(bytes[at] / 16));
        text.push(hex_digit(bytes[at] % 16));
        assert(text@ =~= middle + hex_pair(bytes@[at as int]));
        assert(text@ =~= before + (hex_text(so_far) + hex_pair(bytes@[at as int])));
        at = at + 1;
    }
}

/// A new session id. `ms` is the time in milliseconds since 1970, `nanos` the same in
/// nanoseconds, `pid` the number of the process.
pub fn new_session_id(ms: u64, nanos: u128, pid: u32) -> (id: String)
    ensures
        id@ == id_text(id_bytes(ms, nanos, pid)),
        is_uuid(id@),
{
    let noise: u128 = nanos ^ ((pid as u128) << 17u128) ^ ((ms as u128) << 37u128);
    let bytes: Vec<u8> = vec![
        ((ms >> 40u64) & 0xFF) as u8,
        ((ms >> 32u64) & 0xFF) as u8,
        ((ms >> 24u64) & 0xFF) as u8,
        ((ms >> 16u64) & 0xFF) as u8,
        ((ms >> 8u64) & 0xFF) as u8,
        (ms & 0xFF) as u8,
        (((noise & 0xFF) as u8) & 0x0F) | 0x70,
        ((noise >> 8u128) & 0xFF) as u8,
        ((((noise >> 16u128) & 0xFF) as u8) & 0x3F) | 0x80,
        ((noise >> 24u128) & 0xFF) as u8,
        ((noise >> 32u128) & 0xFF) as u8,
        ((noise >> 40u128) & 0xFF) as u8,
        ((noise >> 48u128) & 0xFF) as u8,
        ((noise >> 56u128) & 0xFF) as u8,
        ((noise >> 64u128) & 0xFF) as u8,
        ((noise >> 72u128) & 0xFF) as u8,
    ];
    assert(bytes@ =~= id_bytes(ms, nanos, pid));
    let mut id = String::new();
    push_hex(&mut id, &bytes, 0, 4);
    assert(id@ =~= hex_text(bytes@.subrange(0, 4)));
    id.append("-");
    push_hex(&mut id, &bytes, 4, 6);
    id.append("-");
    push_hex(&mut id, &bytes, 6, 8);
    id.append("-");
    push_hex(&mut id, &bytes, 8, 10);
    id.append("-");
    push_hex(&mut id, &bytes, 10, 16);
    proof {
        law_ids_have_their_form(ms, nanos, pid);
    }
    id
}

proof fn lemma_hex_text(bytes: Seq<u8>)
    ensures
        hex_text(bytes).len() == 2 * bytes.len(),
        forall|i: int|
            0 <= i < bytes.len() ==> hex_text(bytes)[2 * i] == hex_char(#[trigger] bytes[i] / 16)
                && hex_text(bytes)[2 * i + 1] == hex_char(bytes[i] % 16),
    decreases bytes.len(),
{
    if bytes.len() > 0 {
        let rest = bytes.drop_last();
        lemma_hex_text(rest);
        assert forall|i: int| 0 <= i < bytes.len() implies hex_text(bytes)[2 * i] == hex_char(
            #[trigger] bytes[i] / 16,
        ) && hex_text(bytes)[2 * i + 1] == hex_char(bytes[i] % 16) by {
            if i < rest.len() {
                assert(rest[i] == bytes[i]);
            }
        }
    }
}

proof fn lemma_hex_digits(bytes: Seq<u8>)
    ensures
        hex_text(bytes).len() == 2 * bytes.len(),
        forall|i: int| 0 <= i < hex_text(bytes).len() ==> is_hex_digit(#[trigger] hex_text(bytes)[i]),
    decreases bytes.len(),
{
    if bytes.len() > 0 {
        lemma_hex_digits(bytes.drop_last());
    }
}

/// An id has the form of a session id, and the marks of version 7 and of the variant that
/// goes with it.
pub proof fn law_ids_have_their_form(ms: u64, nanos: u128, pid: u32)
    ensures
        ({
            let id = id_text(id_bytes(ms, nanos, pid));
            &&& is_uuid(id)
            &&& id[14] == '7'
            &&& id[19] == '8' || id[19] == '9' || id[19] == 'a' || id[19] == 'b'
        }),
{
    reveal_strlit("-");
    let bytes = id_bytes(ms, nanos, pid);
    let a = bytes.subrange(0, 4);
    let b = bytes.subrange(4, 6);
    let c = bytes.subrange(6, 8);
    let d = bytes.subrange(8, 10);
    let e = bytes.subrange(10, 16);
    lemma_hex_digits(a);
    lemma_hex_digits(b);
    lemma_hex_digits(c);
    lemma_hex_digits(d);
    lemma_hex_digits(e);
    lemma_hex_text(c);
    lemma_hex_text(d);
    let id = id_text(bytes);
    assert(id.len() == 36);
    assert forall|i: int| 0 <= i < 36 implies if is_hyphen_place(i) {
        #[trigger] id[i] == '-'
    } else {
        is_hex_digit(id[i])
    } by {
        if i < 8 {
            assert(id[i] == hex_text(a)[i]);
        } else if 8 < i < 13 {
            assert(id[i] == hex_text(b)[i - 9]);
        } else if 13 < i < 18 {
            assert(id[i] == hex_text(c)[i - 14]);
        } else if 18 < i < 23 {
            assert(id[i] == hex_text(d)[i - 19]);
        } else if i > 23 {
            assert(id[i] == hex_text(e)[i - 24]);
        }
    }
    let noise = id_noise(ms, nanos, pid);
    let low = (noise & 0xFF) as u8;
    let third = ((noise >> 16u128) & 0xFF) as u8;
    assert(((low & 0x0F) | 0x70) / 16 == 7) by (bit_vector);
    assert(8 <= ((third & 0x3F) | 0x80) / 16 <= 11) by (bit_vector);
    assert(c[0] == (low & 0x0F) | 0x70);
    assert(d[0] == (third & 0x3F) | 0x80);
    assert(id[14] == hex_text(c)[0]);
    assert(id[19] == hex_text(d)[0]);
}

proof fn lemma_text_lt_at(left: Seq<char>, right: Seq<char>, at: int)
    requires
        0 <= at < left.len(),
        at < right.len(),
        forall|i: int| 0 <= i < at ==> left[i] == right[i],
        left[at] < right[at],
    ensures
        text_lt(left, right),
    decreases at,
{
    if at > 0 {
        assert(left[0] == right[0]);
        let a = left.drop_first();
        let b = right.drop_first();
        assert forall|i: int| 0 <= i < at - 1 implies a[i] == b[i] by {
            assert(left[i + 1] == right[i + 1]);
        }
        lemma_text_lt_at(a, b, at - 1);
    }
}

spec fn byte_place(i: int) -> int {
    if i < 4 {
        2 * i
    } else {
        2 * i + 1
    }
}

proof fn lemma_id_places(bytes: Seq<u8>, i: int)
    requires
        bytes.len() == 16,
        0 <= i < 6,
    ensures
        id_text(bytes).len() == 36,
        id_text(bytes)[byte_place(i)] == hex_char(bytes[i] / 16),
        id_text(bytes)[byte_place(i) + 1] == hex_char(bytes[i] % 16),
        id_text(bytes)[8] == '-',
{
    reveal_strlit("-");
    let a = bytes.subrange(0, 4);
    let b = bytes.subrange(4, 6);
    lemma_hex_text(a);
    lemma_hex_text(b);
    lemma_hex_text(bytes.subrange(6, 8));
    lemma_hex_text(bytes.subrange(8, 10));
    lemma_hex_text(bytes.subrange(10, 16));
    if i < 4 {
        assert(a[i] == bytes[i]);
        assert(id_text(bytes)[2 * i] == hex_text(a)[2 * i]);
        assert(id_text(bytes)[2 * i + 1] == hex_text(a)[2 * i + 1]);
    } else {
        assert(b[i - 4] == bytes[i]);
        assert(id_text(bytes)[2 * i + 1] == hex_text(b)[2 * (i - 4)]);
        assert(id_text(bytes)[2 * i + 2] == hex_text(b)[2 * (i - 4) + 1]);
    }
}

spec fn holds_byte(text: Seq<char>, bytes: Seq<u8>, i: int) -> bool {
    text[byte_place(i)] == hex_char(bytes[i] / 16) && text[byte_place(i) + 1] == hex_char(
        bytes[i] % 16,
    )
}

proof fn lemma_places_order(
    a: Seq<char>,
    b: Seq<char>,
    left: Seq<u8>,
    right: Seq<u8>,
    k: int,
)
    requires
        a.len() == 36,
        b.len() == 36,
        left.len() == 16,
        right.len() == 16,
        0 <= k < 6,
        a[8] == b[8],
        forall|i: int| 0 <= i < 6 ==> #[trigger] holds_byte(a, left, i),
        forall|i: int| 0 <= i < 6 ==> #[trigger] holds_byte(b, right, i),
        forall|i: int| 0 <= i < k ==> left[i] == right[i],
        left[k] < right[k],
    ensures
        text_lt(a, b),
{
    assert forall|p: int| 0 <= p < byte_place(k) implies a[p] == b[p] by {
        if p != 8 {
            let i = if p < 8 {
                p / 2
            } else {
                (p - 1) / 2
            };
            assert(0 <= i < k);
            assert(holds_byte(a, left, i) && holds_byte(b, right, i));
            assert(left[i] == right[i]);
            assert(p == byte_place(i) || p == byte_place(i) + 1);
        }
    }
    let at = byte_place(k);
    assert(holds_byte(a, left, k) && holds_byte(b, right, k));
    if left[k] / 16 < right[k] / 16 {
        lemma_text_lt_at(a, b, at);
    } else {
        assert(left[k] / 16 == right[k] / 16);
        assert(left[k] % 16 < right[k] % 16);
        lemma_text_lt_at(a, b, at + 1);
    }
}

proof fn lemma_id_order(left: Seq<u8>, right: Seq<u8>, k: int)
    requires
        left.len() == 16,
        right.len() == 16,
        0 <= k < 6,
        forall|i: int| 0 <= i < k ==> left[i] == right[i],
        left[k] < right[k],
    ensures
        text_lt(id_text(left), id_text(right)),
{
    let a = id_text(left);
    let b = id_text(right);
    lemma_id_places(left, k);
    lemma_id_places(right, k);
    assert forall|i: int| 0 <= i < 6 implies #[trigger] holds_byte(a, left, i) by {
        lemma_id_places(left, i);
    }
    assert forall|i: int| 0 <= i < 6 implies #[trigger] holds_byte(b, right, i) by {
        lemma_id_places(right, i);
    }
    lemma_places_order(a, b, left, right, k);
}

/// Ids sort by the time at which they were made, as long as that time fits in 48 bits.
pub proof fn law_ids_sort_by_time(
    ms: u64,
    nanos: u128,
    pid: u32,
    later_ms: u64,
    later_nanos: u128,
    later_pid: u32,
)
    requires
        ms < later_ms,
        later_ms < 0x1_0000_0000_0000,
    ensures
        text_lt(
            id_text(id_bytes(ms, nanos, pid)),
            id_text(id_bytes(later_ms, later_nanos, later_pid)),
        ),
{
    let a = id_bytes(ms, nanos, pid);
    let b = id_bytes(later_ms, later_nanos, later_pid);
    let x = ms;
    let y = later_ms;
    let x0 = ((x >> 40u64) & 0xFF) as u8;
    let x1 = ((x >> 32u64) & 0xFF) as u8;
    let x2 = ((x >> 24u64) & 0xFF) as u8;
    let x3 = ((x >> 16u64) & 0xFF) as u8;
    let x4 = ((x >> 8u64) & 0xFF) as u8;
    let x5 = (x & 0xFF) as u8;
    let y0 = ((y >> 40u64) & 0xFF) as u8;
    let y1 = ((y >> 32u64) & 0xFF) as u8;
    let y2 = ((y >> 24u64) & 0xFF) as u8;
    let y3 = ((y >> 16u64) & 0xFF) as u8;
    let y4 = ((y >> 8u64) & 0xFF) as u8;
    let y5 = (y & 0xFF) as u8;
    assert(x0 < y0 || (x0 == y0 && (x1 < y1 || (x1 == y1 && (x2 < y2 || (x2 == y2 && (x3 < y3 || (x3
        == y3 && (x4 < y4 || (x4 == y4 && x5 < y5)))))))))) by (bit_vector)
        requires
            x < y,
            y < 0x1_0000_0000_0000u64,
            x0 == ((x >> 40u64) & 0xFF) as u8,
            x1 == ((x >> 32u64) & 0xFF) as u8,
            x2 == ((x >> 24u64) & 0xFF) as u8,
            x3 == ((x >> 16u64) & 0xFF) as u8,
            x4 == ((x >> 8u64) & 0xFF) as u8,
            x5 == (x & 0xFF) as u8,
            y0 == ((y >> 40u64) & 0xFF) as u8,
            y1 == ((y >> 32u64) & 0xFF) as u8,
            y2 == ((y >> 24u64) & 0xFF) as u8,
            y3 == ((y >> 16u64) & 0xFF) as u8,
            y4 == ((y >> 8u64) & 0xFF) as u8,
            y5 == (y & 0xFF) as u8,
    ;
    let k = if x0 < y0 {
        0int
    } else if x1 < y1 {
        1
    } else if x2 < y2 {
        2
    } else if x3 < y3 {
        3
    } else if x4 < y4 {
        4
    } else {
        5
    };
    assert(a[0] == x0 && a[1] == x1 && a[2] == x2 && a[3] == x3 && a[4] == x4 && a[5] == x5);
    assert(b[0] == y0 && b[1] == y1 && b[2] == y2 && b[3] == y3 && b[4] == y4 && b[5] == y5);
    lemma_id_order(a, b, k);
}

// ---------------------------------------------------------------------------
// Places
// ---------------------------------------------------------------------------

/// The stem of the file name of a rollout.
pub open spec fn rollout_stem(stamp: Seq<char>, id: Seq<char>) -> Seq<char> {
    "rollout-"@ + stamp + "-"@ + id
}

/// The place of the rollout of a new session, part by part below the Codex directory.
pub open spec fn clone_place(seconds: i64, id: Seq<char>) -> Option<Seq<Seq<char>>> {
    match (
        utc_text(seconds, "%Y"@),
        utc_text(seconds, "%m"@),
        utc_text(seconds, "%d"@),
        utc_text(seconds, stamp_pattern()),
    ) {
        (Some(year), Some(month), Some(day), Some(stamp)) => Some(
            seq!["sessions"@, year, month, day, rollout_stem(stamp, id) + ".jsonl"@],
        ),
        _ => None,
    }
}

/// The place of a rollout, given the texts of its moment.
pub fn place_at(new_id: &str, moment: &MomentTexts) -> (parts: Vec<String>)
    ensures
        texts(parts@) == seq![
            "sessions"@,
            moment.year@,
            moment.month@,
            moment.day@,
            rollout_stem(moment.stamp@, new_id@) + ".jsonl"@,
        ],
{
    let mut parts: Vec<String> = Vec::new();
    parts.push("sessions".to_owned());
    parts.push(moment.year.clone());
    parts.push(moment.month.clone());
    parts.push(moment.day.clone());
    let name = join5("rollout-", moment.stamp.as_str(), "-", new_id, ".jsonl");
    parts.push(name);
    assert(texts(parts@) =~= seq![
        "sessions"@,
        moment.year@,
        moment.month@,
        moment.day@,
        rollout_stem(moment.stamp@, new_id@) + ".jsonl"@,
    ]);
    parts
}

/// The place of the rollout of a new session, part by part below the Codex directory;
/// `seconds` is the time since 1970. `None` where that time is beyond the calendar.
pub fn build_clone_path(new_id: &str, seconds: i64) -> (parts: Option<Vec<String>>)
    ensures
        match parts {
            Some(parts) => clone_place(seconds, new_id@) == Some(texts(parts@)),
            None => clone_place(seconds, new_id@) is None,
        },
        four_digit_year(seconds) ==> parts is Some,
{
    match moment_texts(seconds) {
        Some(moment) => Some(place_at(new_id, &moment)),
        None => None,
    }
}

/// Whether the hyphens among the bytes of an id stand in their four places and nowhere else.
pub open spec fn hyphens_in_place(bytes: Seq<u8>) -> bool {
    forall|i: int| 0 <= i < bytes.len() ==> (#[trigger] bytes[i] == 45) == is_hyphen_place(i)
}

/// Whether a byte is that of a hexadecimal digit or of a hyphen.
pub open spec fn is_id_byte(byte: u8) -> bool {
    (48 <= byte <= 57) || (97 <= byte <= 102) || (65 <= byte <= 70) || byte == 45
}

/// Bytes without the hyphens at their end.
pub open spec fn without_hyphens(bytes: Seq<u8>) -> Seq<u8>
    decreases bytes.len(),
{
    if bytes.len() > 0 && bytes.last() == 45 {
        without_hyphens(bytes.drop_last())
    } else {
        bytes
    }
}

/// Whether a position of a stamp is that of a separator.
pub open spec fn is_separator_place(at: int) -> bool {
    at == 4 || at == 7 || at == 10 || at == 13 || at == 16
}

/// Whether bytes have the form `YYYY-MM-DDTHH-MM-SS`.
pub open spec fn is_stamp_bytes(bytes: Seq<u8>) -> bool {
    bytes.len() == 19 && bytes[10] == 84 && bytes[4] == 45 && bytes[7] == 45 && bytes[13] == 45
        && bytes[16] == 45 && forall|i: int|
        0 <= i < 19 && !is_separator_place(i) ==> 48 <= #[trigger] bytes[i] <= 57
}

/// What is wrong with the name of a rollout, given the bytes that follow its prefix: the
/// first thing that is.
pub open spec fn name_fault(bytes: Seq<u8>) -> Option<Seq<char>> {
    let cut = bytes.len() - 37;
    let id = bytes.skip(cut + 1);
    if bytes.len() < 37 {
        Some("rollout 文件名过短无法解析: "@)
    } else if bytes[cut] != 45 {
        Some("rollout 文件名 UUID 段格式异常: "@)
    } else if !hyphens_in_place(id) {
        Some("rollout 文件名 UUID 段不合法: "@)
    } else if exists|i: int| 0 <= i < id.len() && !is_id_byte(#[trigger] id[i]) {
        Some("rollout 文件名 UUID 段含非法字符: "@)
    } else if !is_stamp_bytes(without_hyphens(bytes.take(cut))) {
        Some("rollout 文件名时间戳段不符合 codex 解析规则: "@)
    } else {
        None
    }
}

/// Whether the stem of a rollout's file name can be read, or why not.
pub open spec fn stem_verdict(stem: Option<Seq<char>>) -> Result<(), ErrorView> {
    match stem {
        None => Err(ErrorView::Other("rollout 路径缺少文件名"@)),
        Some(stem) => match after_prefix(stem, "rollout-"@) {
            None => Err(ErrorView::Other("rollout 文件名缺少前缀: "@ + stem)),
            Some(rest) => match name_fault(encode_utf8(rest)) {
                Some(fault) => Err(ErrorView::Other(fault + stem)),
                None => Ok(()),
            },
        },
    }
}

fn has_hyphens_in_place(bytes: &[u8], from: usize) -> (in_place: bool)
    requires
        from <= bytes@.len(),
    ensures
        in_place == hyphens_in_place(bytes@.skip(from as int)),
{
    let ghost all = bytes@.skip(from as int);
    let mut at: usize = from;
    while at < bytes.len()
        invariant
            from <= at <= bytes@.len(),
            all == bytes@.skip(from as int),
            forall|i: int|
                0 <= i < at - from ==> (#[trigger] all[i] == 45) == is_hyphen_place(i),
        decreases bytes.len() - at,
    {
        let place: usize = at - from;
        let expected = place == 8 || place == 13 || place == 18 || place == 23;
        assert(all[place as int] == bytes@[at as int]);
        if (bytes[at] == 45) != expected {
            return false;
        }
        at = at + 1;
    }
    true
}

fn all_id_bytes(bytes: &[u8], from: usize) -> (all: bool)
    requires
        from <= bytes@.len(),
    ensures
        all == !(exists|i: int|
            0 <= i < bytes@.skip(from as int).len() && !is_id_byte(
                #[trigger] bytes@.skip(from as int)[i],
            )),
{
    let mut at: usize = from;
    while at < bytes.len()
        invariant
            from <= at <= bytes@.len(),
            forall|i: int| from <= i < at ==> is_id_byte(bytes@[i]),
        decreases bytes.len() - at,
    {
        let byte = bytes[at];
        if !((48 <= byte && byte <= 57) || (97 <= byte && byte <= 102) || (65 <= byte && byte
            <= 70) || byte == 45) {
            assert(!is_id_byte(bytes@.skip(from as int)[at - from]));
            return false;
        }
        at = at + 1;
    }
    true
}

fn is_stamp_at_start(bytes: &[u8]) -> (found: bool)
    requires
        bytes@.len() >= 19,
    ensures
        found == is_stamp_bytes(bytes@.take(19)),
{
    if bytes[10] != 84 || bytes[4] != 45 || bytes[7] != 45 || bytes[13] != 45 || bytes[16] != 45 {
        return false;
    }
    let mut at: usize = 0;
    while at < 19
        invariant
            at <= 19 <= bytes@.len(),
            forall|i: int|
                0 <= i < at && !is_separator_place(i) ==> 48 <= #[trigger] bytes@[i] <= 57,
        decreases 19 - at,
    {
        let separator = at == 4 || at == 7 || at == 10 || at == 13 || at == 16;
        if !separator && (bytes[at] < 48 || bytes[at] > 57) {
            assert(bytes@.take(19)[at as int] == bytes@[at as int]);
            return false;
        }
        at = at + 1;
    }
    true
}

fn stamp_precedes(bytes: &[u8], cut: usize) -> (found: bool)
    requires
        cut <= bytes@.len(),
    ensures
        found == is_stamp_bytes(without_hyphens(bytes@.take(cut as int))),
{
    let mut end: usize = cut;
    while end > 0 && bytes[end - 1] == 45
        invariant
            end <= cut <= bytes@.len(),
            without_hyphens(bytes@.take(cut as int)) == without_hyphens(bytes@.take(end as int)),
        decreases end,
    {
        assert(bytes@.take(end as int).drop_last() =~= bytes@.take(end - 1));
        end = end - 1;
    }
    assert(without_hyphens(bytes@.take(end as int)) == bytes@.take(end as int));
    end == 19 && is_stamp_at_start(bytes)
}

/// Refuses a rollout whose file name could not be read again. `stem` is the stem of that
/// name; `None` where the path has none.
pub fn validate_rollout_filename(stem: Option<&str>) -> (outcome: Result<(), AppError>)
    ensures
        unit_outcome(outcome) == stem_verdict(crate::text::opt_str(stem)),
{
    let stem = match stem {
        Some(stem) => stem,
        None => return Err(AppError::Other("rollout 路径缺少文件名".to_owned())),
    };
    let rest = match strip_prefix(stem, "rollout-") {
        Some(rest) => rest,
        None => return Err(AppError::Other(join2("rollout 文件名缺少前缀: ", stem))),
    };
    let bytes = rest.as_str().as_bytes();
    if bytes.len() < 37 {
        return Err(AppError::Other(join2("rollout 文件名过短无法解析: ", stem)));
    }
    let cut = bytes.len() - 37;
    if bytes[cut] != 45 {
        return Err(AppError::Other(join2("rollout 文件名 UUID 段格式异常: ", stem)));
    }
    if !has_hyphens_in_place(bytes, cut + 1) {
        return Err(AppError::Other(join2("rollout 文件名 UUID 段不合法: ", stem)));
    }
    if !all_id_bytes(bytes, cut + 1) {
        return Err(AppError::Other(join2("rollout 文件名 UUID 段含非法字符: ", stem)));
    }
    if !stamp_precedes(bytes, cut) {
        return Err(
            AppError::Other(join2("rollout 文件名时间戳段不符合 codex 解析规则: ", stem)),
        );
    }
    Ok(())
}

proof fn lemma_ascii_bytes(text: Seq<char>)
    requires
        vstd::utf8::is_ascii_chars(text),
    ensures
        encode_utf8(text).len() == text.len(),
        forall|i: int| 0 <= i < text.len() ==> encode_utf8(text)[i] == #[trigger] text[i] as u8,
{
    vstd::utf8::is_ascii_chars_encode_utf8(text);
}

/// The file name of a new session's rollout can be read again.
pub proof fn law_new_places_can_be_read(stamp: Seq<char>, id: Seq<char>)
    requires
        is_stamp(stamp),
        is_uuid(id),
    ensures
        stem_verdict(Some(rollout_stem(stamp, id))) == Ok::<(), ErrorView>(()),
{
    reveal_strlit("rollout-");
    reveal_strlit("-");
    let stem = rollout_stem(stamp, id);
    let rest = stamp + "-"@ + id;
    assert(stem =~= "rollout-"@ + rest);
    assert(stem.subrange(0, 8) =~= "rollout-"@);
    assert(stem.skip(8) =~= rest);
    assert(rest.len() == 56);
    assert forall|i: int| 0 <= i < rest.len() implies 0 <= (#[trigger] rest[i] as nat) < 128 by {
        if i < 19 {
            assert(rest[i] == stamp[i]);
            if i != 4 && i != 7 && i != 10 && i != 13 && i != 16 {
                assert(is_digit(stamp[i]));
            }
        } else if i > 19 {
            assert(rest[i] == id[i - 20]);
        }
    }
    lemma_ascii_bytes(rest);
    let bytes = encode_utf8(rest);
    let tail = bytes.skip(20);
    assert forall|i: int| 0 <= i < 36 implies #[trigger] tail[i] == id[i] as u8 by {
        assert(rest[i + 20] == id[i]);
    }
    assert(bytes[19] == 45) by {
        assert(rest[19] == '-');
    }
    assert forall|i: int| 0 <= i < tail.len() implies (#[trigger] tail[i] == 45)
        == is_hyphen_place(i) by {
        assert(tail[i] == id[i] as u8);
    }
    assert(!(exists|i: int| 0 <= i < tail.len() && !is_id_byte(#[trigger] tail[i]))) by {
        assert forall|i: int| 0 <= i < tail.len() implies is_id_byte(#[trigger] tail[i]) by {
            assert(tail[i] == id[i] as u8);
        }
    }
    let head = bytes.take(19);
    assert forall|i: int| 0 <= i < 19 implies #[trigger] head[i] == stamp[i] as u8 by {
        assert(rest[i] == stamp[i]);
    }
    assert forall|i: int| 0 <= i < 19 && !is_separator_place(i) implies 48 <= #[trigger] head[i]
        <= 57 by {
        assert(head[i] == stamp[i] as u8);
        assert(is_digit(stamp[i]));
    }
    assert(is_digit(stamp[18]));
    assert(head.last() == head[18]);
    assert(without_hyphens(head) == head);
}

/// The id of a new session can be told from the file name of its rollout alone, where it has
/// a letter in it.
pub proof fn law_names_tell_their_session(stamp: Seq<char>, id: Seq<char>)
    requires
        is_stamp(stamp),
        is_uuid(id),
        has_letter(id),
    ensures
        salvaged_id(rollout_stem(stamp, id)) == Some(id),
{
    reveal_strlit("rollout-");
    reveal_strlit("-");
    reveal_strlit("_");
    let stem = rollout_stem(stamp, id);
    let rest = stamp + "-"@ + id;
    assert(stem =~= "rollout-"@ + rest);
    assert(stem.subrange(0, 8) =~= "rollout-"@);
    assert(stem.skip(8) =~= rest);
    assert(rest.take(19) =~= stamp);
    assert(rest.skip(20) =~= id);
    lemma_find_from(id, "_"@, 0);
    if let Some(at) = find_from(id, "_"@, 0) {
        assert(id.subrange(at, at + 1)[0] == '_');
        assert(id[at] == '_');
    }
    assert forall|i: int| 0 <= i < id.len() implies 0 <= (#[trigger] id[i] as nat) < 128 by {}
    lemma_ascii_bytes(id);
}

/// What is mixed into an id tells apart the moments, the processes and the milliseconds of two ids:
/// each goes in whole, at its own place.
pub proof fn law_ids_mix_in_moment_and_process(
    ms: u64,
    nanos: u128,
    pid: u32,
    other_ms: u64,
    other_nanos: u128,
    other_pid: u32,
)
    ensures
        id_noise(ms, nanos, pid) ^ id_noise(ms, other_nanos, pid) == nanos ^ other_nanos,
        id_noise(ms, nanos, pid) ^ id_noise(ms, nanos, other_pid) == ((pid ^ other_pid) as u128)
            << 17u128,
        id_noise(ms, nanos, pid) ^ id_noise(other_ms, nanos, pid) == ((ms ^ other_ms) as u128)
            << 37u128,
{
    assert((nanos ^ ((pid as u128) << 17u128) ^ ((ms as u128) << 37u128)) ^ (other_nanos ^ ((
    pid as u128) << 17u128) ^ ((ms as u128) << 37u128)) == nanos ^ other_nanos) by (bit_vector);
    assert((nanos ^ ((pid as u128) << 17u128) ^ ((ms as u128) << 37u128)) ^ (nanos ^ ((
    other_pid as u128) << 17u128) ^ ((ms as u128) << 37u128)) == ((pid ^ other_pid) as u128)
        << 17u128) by (bit_vector);
    assert((nanos ^ ((pid as u128) << 17u128) ^ ((ms as u128) << 37u128)) ^ (nanos ^ ((
    pid as u128) << 17u128) ^ ((other_ms as u128) << 37u128)) == ((ms ^ other_ms) as u128)
        << 37u128) by (bit_vector);
}

/// A new rollout lies in the folder of its day, and its name gives the moment and the session.
pub proof fn law_where_new_rollouts_lie(seconds: i64, id: Seq<char>)
    ensures
        clone_place(seconds, id) matches Some(parts) ==> {
            &&& parts.len() == 5
            &&& parts[0] == "sessions"@
            &&& utc_text(seconds, "%Y"@) == Some(parts[1])
            &&& utc_text(seconds, "%m"@) == Some(parts[2])
            &&& utc_text(seconds, "%d"@) == Some(parts[3])
            &&& utc_text(seconds, "%Y-%m-%dT%H-%M-%S"@) matches Some(stamp) && parts[4]
                == "rollout-"@ + stamp + "-"@ + id + ".jsonl"@
        },
        clone_place(seconds, id) is None <==> utc_text(seconds, "%Y"@) is None || utc_text(
            seconds,
            "%m"@,
        ) is None || utc_text(seconds, "%d"@) is None || utc_text(
            seconds,
            "%Y-%m-%dT%H-%M-%S"@,
        ) is None,
{
}

/// A name that is accepted has the prefix and ends with a hyphen and what has the form of a session
/// id.
pub proof fn law_which_names_are_accepted(stem: Seq<char>)
    ensures
        stem_verdict(None) is Err,
        !begins_with(stem, "rollout-"@) ==> stem_verdict(Some(stem)) is Err,
        stem_verdict(Some(stem)) is Ok ==> {
            let bytes = encode_utf8(stem.skip(8));
            let cut = bytes.len() - 37;
            &&& cut >= 19
            &&& bytes[cut] == 45
            &&& forall|i: int|
                0 <= i < 36 ==> (#[trigger] bytes[cut + 1 + i] == 45 <==> i == 8 || i == 13 || i
                    == 18 || i == 23)
            &&& forall|i: int|
                0 <= i < 36 ==> (48 <= #[trigger] bytes[cut + 1 + i] <= 57 || 97 <= bytes[cut + 1
                    + i] <= 102 || 65 <= bytes[cut + 1 + i] <= 70 || bytes[cut + 1 + i] == 45)
            &&& bytes[4] == 45 && bytes[7] == 45 && bytes[10] == 84 && bytes[13] == 45 && bytes[16]
                == 45
            &&& forall|i: int|
                0 <= i < 19 && i != 4 && i != 7 && i != 10 && i != 13 && i != 16 ==> 48
                    <= #[trigger] bytes[i] <= 57
            &&& forall|i: int| 19 <= i < cut ==> #[trigger] bytes[i] == 45
        },
{
    reveal_strlit("rollout-");
    assert("rollout-"@.len() == 8);
    if stem_verdict(Some(stem)) is Ok {
        let bytes = encode_utf8(stem.skip(8));
        let cut = bytes.len() - 37;
        let id = bytes.skip(cut + 1);
        let front = bytes.take(cut);
        let stamp = without_hyphens(front);
        lemma_without_hyphens(front);
        assert(is_stamp_bytes(stamp));
        assert forall|i: int| 0 <= i < 19 implies #[trigger] bytes[i] == stamp[i] by {
            assert(stamp[i] == front[i]);
        }
        assert forall|i: int| 19 <= i < cut implies #[trigger] bytes[i] == 45 by {
            assert(front[i] == 45);
        }
        assert forall|i: int| 0 <= i < 36 implies #[trigger] bytes[cut + 1 + i] == id[i] by {}
        assert forall|i: int| 0 <= i < 36 implies (#[trigger] bytes[cut + 1 + i] == 45 <==> i == 8
            || i == 13 || i == 18 || i == 23) by {
            assert((id[i] == 45) == is_hyphen_place(i));
        }
        assert forall|i: int| 0 <= i < 36 implies (48 <= #[trigger] bytes[cut + 1 + i] <= 57 || 97
            <= bytes[cut + 1 + i] <= 102 || 65 <= bytes[cut + 1 + i] <= 70 || bytes[cut + 1 + i]
            == 45) by {
            assert(is_id_byte(id[i]));
        }
    }
}

proof fn lemma_without_hyphens(bytes: Seq<u8>)
    ensures
        without_hyphens(bytes).len() <= bytes.len(),
        without_hyphens(bytes) == bytes.take(without_hyphens(bytes).len() as int),
        forall|i: int| without_hyphens(bytes).len() <= i < bytes.len() ==> #[trigger] bytes[i] == 45,
    decreases bytes.len(),
{
    if bytes.len() > 0 && bytes.last() == 45 {
        let rest = bytes.drop_last();
        lemma_without_hyphens(rest);
        let size = without_hyphens(bytes).len() as int;
        assert(rest.take(size) =~= bytes.take(size));
        assert forall|i: int| size <= i < bytes.len() implies #[trigger] bytes[i] == 45 by {
            if i < rest.len() {
                assert(rest[i] == bytes[i]);
            }
        }
    } else {
        assert(bytes.take(bytes.len() as int) =~= bytes);
    }
}

} // verus!
