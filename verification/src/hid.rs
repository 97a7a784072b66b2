//! The USB status transport: snapshots, their report layout, and the policy
//! that turns render plans into reports.
//!
//! The daemon depends only on the narrow [`StatusWriter`] boundary; manual
//! protocol diagnostics remain explicit command-line actions.

use vstd::arithmetic::power2::pow2;
use vstd::prelude::*;

use crate::binding::{key_ids, KEY_IDS};
use crate::brightness::{level_of, scaled_significand};
use crate::render::{
    herdr_treatments, key_render_views, law_plan_shows_every_key, plan_result, shows_every_key,
    AgentState, DisplayView, KeyRender, KeyRenderView, Motion, PlanView, RenderPlan, Rgb, StateTreatment,
    StateTreatments,
};
use crate::status::RowView;
use crate::text::{
    append_hex, decimal, decimal_of, hex_pair, keyword, keyword_chars, option_view, quote, quoted,
    same_text, signed, signed_decimal, spells, views,
};

verus! {

broadcast use vstd::string::group_string_axioms;

pub const VENDOR_USAGE_PAGE: u16 = 0xFF60;

pub const STATUS_USAGE: u16 = 0x0061;

pub const GLOVE80_VENDOR_ID: u16 = 0x16C0;

pub const GLOVE80_PRODUCT_ID: u16 = 0x27DB;

pub const REPORT_SIZE: usize = 32;

pub const SLOT_COUNT: usize = 10;

pub const PROTOCOL_VERSION: u8 = 2;

pub const SNAPSHOT_MESSAGE_TYPE: u8 = 1;

/// How long a failed write defers the next one, in nanoseconds.
pub const DISCONNECTED_RETRY_DELAY: u128 = 2_000_000_000;

// ---------------------------------------------------------------------------
// States and treatments
// ---------------------------------------------------------------------------

/// A state value defined by the status transport.
#[derive(Clone, Copy, Debug, PartialEq, Eq, Structural)]
pub enum Status {
    Unbound,
    Idle,
    Working,
    Blocked,
    Done,
    Unknown,
}

/// The number that stands for a state in a report.
pub open spec fn status_code(status: Status) -> u8 {
    match status {
        Status::Unbound => 0,
        Status::Idle => 1,
        Status::Working => 2,
        Status::Blocked => 3,
        Status::Done => 4,
        Status::Unknown => 5,
    }
}

/// The name of a state.
pub open spec fn status_name(status: Status) -> Seq<char> {
    match status {
        Status::Unbound => "unbound"@,
        Status::Idle => "idle"@,
        Status::Working => "working"@,
        Status::Blocked => "blocked"@,
        Status::Done => "done"@,
        Status::Unknown => "unknown"@,
    }
}

/// The state that a text names; white space around it and the case of its
/// letters do not matter.
pub open spec fn status_named(text: Seq<char>) -> Option<Status> {
    let word = keyword(text);
    if word == "unbound"@ {
        Some(Status::Unbound)
    } else if word == "idle"@ {
        Some(Status::Idle)
    } else if word == "working"@ {
        Some(Status::Working)
    } else if word == "blocked"@ {
        Some(Status::Blocked)
    } else if word == "done"@ {
        Some(Status::Done)
    } else if word == "unknown"@ {
        Some(Status::Unknown)
    } else {
        None
    }
}

impl Status {
    /// The number that stands for the state in a report.
    pub fn code(self) -> (code: u8)
        ensures
            code == status_code(self),
    {
        match self {
            Status::Unbound => 0,
            Status::Idle => 1,
            Status::Working => 2,
            Status::Blocked => 3,
            Status::Done => 4,
            Status::Unknown => 5,
        }
    }

    /// The name of the state.
    pub fn name(self) -> (name: &'static str)
        ensures
            name@ == status_name(self),
    {
        match self {
            Status::Unbound => "unbound",
            Status::Idle => "idle",
            Status::Working => "working",
            Status::Blocked => "blocked",
            Status::Done => "done",
            Status::Unknown => "unknown",
        }
    }

    /// Reads the name of a state.
    pub fn parse(value: &str) -> (result: Result<Status, String>)
        ensures
            match result {
                Ok(status) => status_named(value@) == Some(status),
                Err(message) => status_named(value@) is None && message@ == "invalid status "@
                    + quoted(value@)
                    + "; expected unbound, idle, working, blocked, done, or unknown"@,
            },
    {
        let word = keyword_chars(value);
        if spells(&word, "unbound") {
            Ok(Status::Unbound)
        } else if spells(&word, "idle") {
            Ok(Status::Idle)
        } else if spells(&word, "working") {
            Ok(Status::Working)
        } else if spells(&word, "blocked") {
            Ok(Status::Blocked)
        } else if spells(&word, "done") {
            Ok(Status::Done)
        } else if spells(&word, "unknown") {
            Ok(Status::Unknown)
        } else {
            Err(
                "invalid status ".to_owned().concat(quote(value).as_str()).concat(
                    "; expected unbound, idle, working, blocked, done, or unknown",
                ),
            )
        }
    }
}

impl std::str::FromStr for Status {
    type Err = String;

    fn from_str(value: &str) -> (result: Result<Status, String>)
        ensures
            match result {
                Ok(status) => status_named(value@) == Some(status),
                Err(message) => status_named(value@) is None && message@ == "invalid status "@
                    + quoted(value@)
                    + "; expected unbound, idle, working, blocked, done, or unknown"@,
            },
    {
        Status::parse(value)
    }
}

/// A host-resolved treatment. Named themes stay on the host; this is the
/// compact, keyboard-agnostic data that firmware needs to render them.
#[derive(Clone, Copy, Debug, PartialEq, Eq, Structural)]
pub struct Treatment {
    pub color: Rgb,
    pub brightness: u8,
    pub motion: Motion,
}

/// The number that stands for a motion in a report.
pub open spec fn code_of_motion(motion: Motion) -> u8 {
    match motion {
        Motion::Steady => 0,
        Motion::Breathe => 1,
        Motion::Pulse => 2,
        Motion::Flicker => 3,
    }
}

fn motion_code(motion: Motion) -> (code: u8)
    ensures
        code == code_of_motion(motion),
{
    match motion {
        Motion::Steady => 0,
        Motion::Breathe => 1,
        Motion::Pulse => 2,
        Motion::Flicker => 3,
    }
}

// ---------------------------------------------------------------------------
// Snapshots and reports
// ---------------------------------------------------------------------------

/// A complete, atomic state view of the ten Beckon keys.
#[derive(Clone, Copy, Debug, PartialEq, Eq)]
pub struct StatusSnapshot {
    pub sequence: u8,
    pub slots: [Status; 10],
    pub treatments: [Treatment; 5],
}

#[verifier::ext_equal]
pub struct SnapshotView {
    pub sequence: u8,
    pub slots: Seq<Status>,
    pub treatments: Seq<Treatment>,
}

impl View for StatusSnapshot {
    type V = SnapshotView;

    open spec fn view(&self) -> SnapshotView {
        SnapshotView {
            sequence: self.sequence,
            slots: self.slots@,
            treatments: self.treatments@,
        }
    }
}

/// Bit `index` of a byte, counted from the lowest.
pub open spec fn byte_bit(byte: u8, index: int) -> bool {
    (byte >> (index as u8)) & 1 == 1
}

/// Bit `position` of a report: the bits of a byte follow each other from the
/// lowest up, and the bytes follow each other.
pub open spec fn report_bit(report: Seq<u8>, position: int) -> bool {
    byte_bit(report[position / 8], position % 8)
}

/// The number in the three bits from `position` on, lowest bit first.
pub open spec fn three_bits(report: Seq<u8>, position: int) -> int {
    (if report_bit(report, position) {
        1int
    } else {
        0
    }) + (if report_bit(report, position + 1) {
        2int
    } else {
        0
    }) + (if report_bit(report, position + 2) {
        4int
    } else {
        0
    })
}

/// The layout of a report. The ten states are 3-bit fields from bit 32 on, the
/// five motions 3-bit fields from bit 224 on; the colours stand from byte 8
/// on, the brightnesses from byte 23 on. Every other bit is zero.
pub open spec fn report_holds(report: Seq<u8>, snapshot: SnapshotView) -> bool {
    &&& report.len() == REPORT_SIZE
    &&& report[0] == PROTOCOL_VERSION
    &&& report[1] == SNAPSHOT_MESSAGE_TYPE
    &&& report[2] == snapshot.sequence
    &&& report[3] == 0
    &&& forall|i: int| #![trigger snapshot.slots[i]]
        0 <= i < 10 ==> three_bits(report, 32 + 3 * i) == status_code(snapshot.slots[i])
    &&& !report_bit(report, 62) && !report_bit(report, 63)
    &&& forall|i: int| #![trigger snapshot.treatments[i]]
        0 <= i < 5 ==> {
            &&& report[8 + 3 * i] == snapshot.treatments[i].color.red
            &&& report[9 + 3 * i] == snapshot.treatments[i].color.green
            &&& report[10 + 3 * i] == snapshot.treatments[i].color.blue
            &&& report[23 + i] == snapshot.treatments[i].brightness
            &&& three_bits(report, 224 + 3 * i) == code_of_motion(snapshot.treatments[i].motion)
        }
    &&& !report_bit(report, 239)
    &&& report[30] == 0
    &&& report[31] == 0
}

proof fn lemma_set_low(byte: u8, value: u8, offset: u8, index: u8)
    by (bit_vector)
    requires
        value < 8,
        offset < 8,
        index < 8,
    ensures
        ((byte | (value << offset)) >> index) & 1 == 1 <==> ((byte >> index) & 1 == 1 || (offset
            <= index && index < offset + 3 && (value >> ((index - offset) as u8)) & 1 == 1)),
{
}

proof fn lemma_set_high(byte: u8, value: u8, offset: u8, index: u8)
    by (bit_vector)
    requires
        value < 8,
        5 < offset < 8,
        index < 8,
    ensures
        ((byte | (value >> ((8 - offset) as u8))) >> index) & 1 == 1 <==> ((byte >> index) & 1 == 1
            || (index + 8 < offset + 3 && (value >> ((index + 8 - offset) as u8)) & 1 == 1)),
{
}

proof fn lemma_three_bits(value: u8)
    requires
        value < 8,
    ensures
        value == (if byte_bit(value, 0) {
            1int
        } else {
            0
        }) + (if byte_bit(value, 1) {
            2int
        } else {
            0
        }) + (if byte_bit(value, 2) {
            4int
        } else {
            0
        }),
{
    assert(value < 8 ==> value == ((value >> 0u8) & 1) + 2 * ((value >> 1u8) & 1) + 4 * ((value
        >> 2u8) & 1) && (value >> 0u8) & 1 <= 1 && (value >> 1u8) & 1 <= 1 && (value >> 2u8) & 1
        <= 1) by (bit_vector);
}

proof fn lemma_zero_bits(index: int)
    requires
        0 <= index < 8,
    ensures
        !byte_bit(0, index),
{
    let shift = index as u8;
    assert((0u8 >> shift) & 1 == 0) by (bit_vector);
}

/// Puts the three bits of `value` into the report, from bit `bit` on.
fn pack_three_bits(report: &mut [u8; 32], bit: usize, value: u8)
    requires
        value < 8,
        bit <= 253,
    ensures
        forall|p: int|
            0 <= p < 256 ==> #[trigger] report_bit(final(report)@, p) == (report_bit(
                old(report)@,
                p,
            ) || (bit <= p < bit + 3 && byte_bit(value, p - bit))),
        forall|i: int|
            0 <= i < 32 && i != bit / 8 && i != (bit + 2) / 8 ==> #[trigger] final(report)@[i]
                == old(report)@[i],
{
    let byte: usize = bit / 8;
    let offset: u8 = (bit % 8) as u8;
    let low: u8 = report[byte] | (value << offset);
    report[byte] = low;
    if offset > 5 {
        let high: u8 = report[byte + 1] | (value >> (8 - offset));
        report[byte + 1] = high;
    }
    proof {
        assert forall|p: int| 0 <= p < 256 implies #[trigger] report_bit(report@, p) == (
        report_bit(old(report)@, p) || (bit <= p < bit + 3 && byte_bit(value, p - bit))) by {
            let index = (p % 8) as u8;
            if p / 8 == byte {
                lemma_set_low(old(report)@[byte as int], value, offset, index);
            } else if offset > 5 && p / 8 == byte + 1 {
                lemma_set_high(old(report)@[byte + 1], value, offset, index);
            }
        }
    }
}

/// The brightnesses of the built-in theme on a scale to 255.
proof fn lemma_herdr_levels()
    ensures
        level_of(0x3E4C_CCCD) == 51,
        level_of(0x3F19_999A) == 153,
        level_of(0x3F4C_CCCD) == 204,
        level_of(0x3E99_999A) == 77,
{
    vstd::arithmetic::power2::lemma2_to64();
    assert(scaled_significand(13421773) == 3422552064);
    assert(pow2(26) == 67108864);
    assert(0x3E4CCCCDu32 / 0x80_0000 == 124 && 0x80_0000 + 0x3E4CCCCDu32 % 0x80_0000 == 13421773);
    assert((2 * 3422552064int + 67108864) / (2 * 67108864int) == 51);
    assert(scaled_significand(10066330) == 2566914048);
    assert(pow2(24) == 16777216);
    assert(0x3F19999Au32 / 0x80_0000 == 126 && 0x80_0000 + 0x3F19999Au32 % 0x80_0000 == 10066330);
    assert((2 * 2566914048int + 16777216) / (2 * 16777216int) == 153);
    assert(0x3F4CCCCDu32 / 0x80_0000 == 126 && 0x80_0000 + 0x3F4CCCCDu32 % 0x80_0000 == 13421773);
    assert((2 * 3422552064int + 16777216) / (2 * 16777216int) == 204);
    assert(pow2(25) == 33554432);
    assert(0x3E99999Au32 / 0x80_0000 == 125 && 0x80_0000 + 0x3E99999Au32 % 0x80_0000 == 10066330);
    assert((2 * 2566914048int + 33554432) / (2 * 33554432int) == 77);
}

impl StatusSnapshot {
    /// Produces a valid snapshot for explicit diagnostics. The daemon always
    /// replaces these defaults with its selected configuration theme.
    pub fn for_manual_send(sequence: u8, slots: [Status; 10]) -> (snapshot: Self)
        ensures
            snapshot@ == (SnapshotView {
                sequence,
                slots: slots@,
                treatments: seq![
                    Treatment {
                        color: Rgb { red: 59, green: 160, blue: 255 },
                        brightness: 51,
                        motion: Motion::Steady,
                    },
                    Treatment {
                        color: Rgb { red: 249, green: 226, blue: 175 },
                        brightness: 153,
                        motion: Motion::Breathe,
                    },
                    Treatment {
                        color: Rgb { red: 243, green: 139, blue: 168 },
                        brightness: 204,
                        motion: Motion::Pulse,
                    },
                    Treatment {
                        color: Rgb { red: 166, green: 227, blue: 161 },
                        brightness: 204,
                        motion: Motion::Steady,
                    },
                    Treatment {
                        color: Rgb { red: 108, green: 112, blue: 134 },
                        brightness: 77,
                        motion: Motion::Flicker,
                    },
                ],
            }),
            snapshot@.treatments == sent_treatments(herdr_treatments()),
    {
        proof {
            lemma_herdr_levels();
        }
        StatusSnapshot {
            sequence,
            slots,
            treatments: [
                Treatment {
                    color: Rgb { red: 59, green: 160, blue: 255 },
                    brightness: 51,
                    motion: Motion::Steady,
                },
                Treatment {
                    color: Rgb { red: 249, green: 226, blue: 175 },
                    brightness: 153,
                    motion: Motion::Breathe,
                },
                Treatment {
                    color: Rgb { red: 243, green: 139, blue: 168 },
                    brightness: 204,
                    motion: Motion::Pulse,
                },
                Treatment {
                    color: Rgb { red: 166, green: 227, blue: 161 },
                    brightness: 204,
                    motion: Motion::Steady,
                },
                Treatment {
                    color: Rgb { red: 108, green: 112, blue: 134 },
                    brightness: 77,
                    motion: Motion::Flicker,
                },
            ],
        }
    }

    /// Encodes an output report. The ten states use 3-bit fields so that five
    /// colours, brightnesses and motions fit in 32 bytes.
    pub fn encode(self) -> (report: [u8; 32])
        ensures
            report_holds(report@, self@),
    {
        let mut report: [u8; 32] = [0; 32];
        report[0] = PROTOCOL_VERSION;
        report[1] = SNAPSHOT_MESSAGE_TYPE;
        report[2] = self.sequence;
        proof {
            assert forall|p: int| 32 <= p < 64 implies !#[trigger] report_bit(report@, p) by {
                lemma_zero_bits(p % 8);
            }
        }
        for index in 0..10usize
            invariant
                report@[0] == PROTOCOL_VERSION,
                report@[1] == SNAPSHOT_MESSAGE_TYPE,
                report@[2] == self.sequence,
                report@[3] == 0,
                forall|i: int| 8 <= i < 32 ==> #[trigger] report@[i] == 0,
                forall|p: int|
                    32 <= p < 64 ==> #[trigger] report_bit(report@, p) == (p < 32 + 3 * index
                        && byte_bit(status_code(self.slots@[(p - 32) / 3]), (p - 32) % 3)),
        {
            pack_three_bits(&mut report, 32 + index * 3, self.slots[index].code());
        }
        proof {
            assert forall|i: int| #![trigger self.slots@[i]] 0 <= i < 10 implies three_bits(
                report@,
                32 + 3 * i,
            ) == status_code(self.slots@[i]) by {
                lemma_three_bits(status_code(self.slots@[i]));
            }
            assert(!report_bit(report@, 62) && !report_bit(report@, 63));
            assert forall|p: int| 224 <= p < 240 implies !#[trigger] report_bit(report@, p) by {
                assert(report@[p / 8] == 0);
                lemma_zero_bits(p % 8);
            }
        }
        let ghost states = report@;
        for index in 0..5usize
            invariant
                forall|i: int| 0 <= i < 8 ==> #[trigger] report@[i] == states[i],
                forall|i: int| 0 <= i < index ==> report@[8 + 3 * i] == (
                #[trigger] self.treatments@[i]).color.red,
                forall|i: int| 0 <= i < index ==> report@[9 + 3 * i] == (
                #[trigger] self.treatments@[i]).color.green,
                forall|i: int| 0 <= i < index ==> report@[10 + 3 * i] == (
                #[trigger] self.treatments@[i]).color.blue,
                forall|i: int| 0 <= i < index ==> report@[23 + i] == (
                #[trigger] self.treatments@[i]).brightness,
                forall|p: int|
                    224 <= p < 240 ==> #[trigger] report_bit(report@, p) == (p < 224 + 3 * index
                        && byte_bit(
                        code_of_motion(self.treatments@[(p - 224) / 3].motion),
                        (p - 224) % 3,
                    )),
                report@[30] == 0,
                report@[31] == 0,
        {
            let treatment = self.treatments[index];
            let ghost before = report@;
            report[8 + index * 3] = treatment.color.red;
            report[9 + index * 3] = treatment.color.green;
            report[10 + index * 3] = treatment.color.blue;
            report[23 + index] = treatment.brightness;
            assert forall|p: int| 224 <= p < 240 implies #[trigger] report_bit(report@, p)
                == report_bit(before, p) by {
                assert(report@[p / 8] == before[p / 8]);
            }
            pack_three_bits(&mut report, 224 + index * 3, motion_code(treatment.motion));
        }
        proof {
            assert forall|i: int| #![trigger self.slots@[i]] 0 <= i < 10 implies three_bits(
                report@,
                32 + 3 * i,
            ) == status_code(self.slots@[i]) by {
                assert(three_bits(states, 32 + 3 * i) == status_code(self.slots@[i]));
                assert(report@[(32 + 3 * i) / 8] == states[(32 + 3 * i) / 8]);
                assert(report@[(33 + 3 * i) / 8] == states[(33 + 3 * i) / 8]);
                assert(report@[(34 + 3 * i) / 8] == states[(34 + 3 * i) / 8]);
            }
            assert(report@[7] == states[7]);
            assert forall|i: int| #![trigger self.treatments@[i]] 0 <= i < 5 implies three_bits(
                report@,
                224 + 3 * i,
            ) == code_of_motion(self.treatments@[i].motion) by {
                lemma_three_bits(code_of_motion(self.treatments@[i].motion));
            }
        }
        report
    }
}

/// A report holds one snapshot at most: nothing is lost in encoding.
pub proof fn law_report_determines_snapshot(report: Seq<u8>, left: SnapshotView, right: SnapshotView)
    requires
        left.slots.len() == 10,
        right.slots.len() == 10,
        left.treatments.len() == 5,
        right.treatments.len() == 5,
        report_holds(report, left),
        report_holds(report, right),
    ensures
        left == right,
{
    assert forall|i: int| 0 <= i < 10 implies left.slots[i] == right.slots[i] by {
        assert(status_code(left.slots[i]) == status_code(right.slots[i]));
    }
    assert forall|i: int| 0 <= i < 5 implies left.treatments[i] == right.treatments[i] by {
        assert(code_of_motion(left.treatments[i].motion) == code_of_motion(
            right.treatments[i].motion,
        ));
    }
    assert(left.slots =~= right.slots);
    assert(left.treatments =~= right.treatments);
}

proof fn lemma_byte_from_bits(left: u8, right: u8)
    requires
        forall|index: int| 0 <= index < 8 ==> #[trigger] byte_bit(left, index) == byte_bit(
            right,
            index,
        ),
    ensures
        left == right,
{
    assert(byte_bit(left, 0) == byte_bit(right, 0));
    assert(byte_bit(left, 1) == byte_bit(right, 1));
    assert(byte_bit(left, 2) == byte_bit(right, 2));
    assert(byte_bit(left, 3) == byte_bit(right, 3));
    assert(byte_bit(left, 4) == byte_bit(right, 4));
    assert(byte_bit(left, 5) == byte_bit(right, 5));
    assert(byte_bit(left, 6) == byte_bit(right, 6));
    assert(byte_bit(left, 7) == byte_bit(right, 7));
    assert(((left >> 0u8) & 1 == 1 <==> (right >> 0u8) & 1 == 1) && ((left >> 1u8) & 1 == 1 <==> (
    right >> 1u8) & 1 == 1) && ((left >> 2u8) & 1 == 1 <==> (right >> 2u8) & 1 == 1) && ((left
        >> 3u8) & 1 == 1 <==> (right >> 3u8) & 1 == 1) && ((left >> 4u8) & 1 == 1 <==> (right
        >> 4u8) & 1 == 1) && ((left >> 5u8) & 1 == 1 <==> (right >> 5u8) & 1 == 1) && ((left
        >> 6u8) & 1 == 1 <==> (right >> 6u8) & 1 == 1) && ((left >> 7u8) & 1 == 1 <==> (right
        >> 7u8) & 1 == 1) ==> left == right) by (bit_vector);
}

/// A snapshot has one report: no byte is left open.
pub proof fn law_snapshot_determines_report(left: Seq<u8>, right: Seq<u8>, snapshot: SnapshotView)
    requires
        report_holds(left, snapshot),
        report_holds(right, snapshot),
    ensures
        left == right,
{
    assert forall|p: int| 32 <= p < 64 implies #[trigger] report_bit(left, p) == report_bit(
        right,
        p,
    ) by {
        if p < 62 {
            let i = (p - 32) / 3;
            assert(three_bits(left, 32 + 3 * i) == status_code(snapshot.slots[i]));
            assert(three_bits(right, 32 + 3 * i) == status_code(snapshot.slots[i]));
            assert(p == 32 + 3 * i || p == 33 + 3 * i || p == 34 + 3 * i);
        } else {
            assert(p == 62 || p == 63);
        }
    }
    assert forall|p: int| 224 <= p < 240 implies #[trigger] report_bit(left, p) == report_bit(
        right,
        p,
    ) by {
        if p < 239 {
            let i = (p - 224) / 3;
            assert(three_bits(left, 224 + 3 * i) == code_of_motion(snapshot.treatments[i].motion));
            assert(three_bits(right, 224 + 3 * i) == code_of_motion(
                snapshot.treatments[i].motion,
            ));
            assert(p == 224 + 3 * i || p == 225 + 3 * i || p == 226 + 3 * i);
        }
    }
    assert forall|i: int| 0 <= i < 32 implies left[i] == right[i] by {
        if 4 <= i < 8 || 28 <= i < 30 {
            assert forall|index: int| 0 <= index < 8 implies #[trigger] byte_bit(left[i], index)
                == byte_bit(right[i], index) by {
                let p = 8 * i + index;
                assert(p / 8 == i && p % 8 == index);
                assert(report_bit(left, p) == report_bit(right, p));
            }
            lemma_byte_from_bits(left[i], right[i]);
        } else if 8 <= i < 23 {
            let k = (i - 8) / 3;
            let treatment = snapshot.treatments[k];
            assert(i == 8 + 3 * k || i == 9 + 3 * k || i == 10 + 3 * k);
        } else if 23 <= i < 28 {
            let treatment = snapshot.treatments[i - 23];
        }
    }
    assert(left =~= right);
}

// ---------------------------------------------------------------------------
// From plans to snapshots
// ---------------------------------------------------------------------------

/// The state that a key shows.
pub open spec fn status_of_state(state: Option<AgentState>) -> Status {
    match state {
        None => Status::Unbound,
        Some(AgentState::Idle) => Status::Idle,
        Some(AgentState::Working) => Status::Working,
        Some(AgentState::Blocked) => Status::Blocked,
        Some(AgentState::Done) => Status::Done,
        Some(AgentState::Unknown) => Status::Unknown,
    }
}

/// Why a plan gives no snapshot.
pub enum PlanFault {
    /// The plan has not exactly ten different keys.
    Count,
    /// The plan lacks a logical key.
    Omitted(Seq<char>),
}

impl PlanFault {
    /// The text shown to the user.
    pub open spec fn message(self) -> Seq<char> {
        match self {
            PlanFault::Count => "render plan must contain exactly 10 Beckon keys"@,
            PlanFault::Omitted(key) => "render plan omitted "@ + key,
        }
    }
}

/// No key occurs twice.
pub open spec fn keys_differ(keys: Seq<KeyRenderView>) -> bool {
    forall|i: int, j: int|
        0 <= i < j < keys.len() ==> (#[trigger] keys[i]).key != (#[trigger] keys[j]).key
}

/// What the plan shows on a key: the first entry for it.
pub open spec fn render_of(keys: Seq<KeyRenderView>, key: Seq<char>) -> Option<KeyRenderView>
    decreases keys.len(),
{
    if keys.len() == 0 {
        None
    } else if keys[0].key == key {
        Some(keys[0])
    } else {
        render_of(keys.skip(1), key)
    }
}

/// The first logical key from position `start` on that the plan lacks.
pub open spec fn omitted_from(keys: Seq<KeyRenderView>, start: int) -> Option<Seq<char>>
    decreases 10 - start,
{
    if start >= 10 {
        None
    } else if render_of(keys, key_ids()[start]) is None {
        Some(key_ids()[start])
    } else {
        omitted_from(keys, start + 1)
    }
}

/// The states of the ten keys, F1 first, or why there are none.
pub open spec fn plan_slots(plan: PlanView) -> Result<Seq<Status>, PlanFault> {
    if plan.keys.len() != 10 || !keys_differ(plan.keys) {
        Err(PlanFault::Count)
    } else {
        match omitted_from(plan.keys, 0) {
            Some(key) => Err(PlanFault::Omitted(key)),
            None => Ok(
                Seq::new(
                    10,
                    |i: int| status_of_state((render_of(plan.keys, key_ids()[i])->0).state),
                ),
            ),
        }
    }
}

/// A treatment with its brightness as a byte.
pub open spec fn sent_treatment(treatment: StateTreatment) -> Treatment {
    Treatment {
        color: treatment.color,
        brightness: level_of(treatment.brightness.bits) as u8,
        motion: treatment.motion,
    }
}

/// The treatments of the five states in report order.
pub open spec fn sent_treatments(treatments: StateTreatments) -> Seq<Treatment> {
    seq![
        sent_treatment(treatments.idle),
        sent_treatment(treatments.working),
        sent_treatment(treatments.blocked),
        sent_treatment(treatments.done),
        sent_treatment(treatments.unknown),
    ]
}

fn status_for_state(state: Option<AgentState>) -> (status: Status)
    ensures
        status == status_of_state(state),
{
    match state {
        None => Status::Unbound,
        Some(AgentState::Idle) => Status::Idle,
        Some(AgentState::Working) => Status::Working,
        Some(AgentState::Blocked) => Status::Blocked,
        Some(AgentState::Done) => Status::Done,
        Some(AgentState::Unknown) => Status::Unknown,
    }
}

fn treatment_for_render(treatment: StateTreatment) -> (sent: Treatment)
    ensures
        sent == sent_treatment(treatment),
{
    Treatment {
        color: treatment.color,
        brightness: treatment.brightness.level(),
        motion: treatment.motion,
    }
}

fn treatments_for_plan(plan: &RenderPlan) -> (treatments: [Treatment; 5])
    ensures
        treatments@ == sent_treatments(plan.treatments),
{
    let ordered = plan.treatments.ordered();
    let treatments = [
        treatment_for_render(ordered[0]),
        treatment_for_render(ordered[1]),
        treatment_for_render(ordered[2]),
        treatment_for_render(ordered[3]),
        treatment_for_render(ordered[4]),
    ];
    assert(treatments@ =~= sent_treatments(plan.treatments));
    treatments
}

proof fn lemma_render_of_skip(keys: Seq<KeyRenderView>, key: Seq<char>, count: int)
    requires
        0 <= count <= keys.len(),
        forall|i: int| 0 <= i < count ==> (#[trigger] keys[i]).key != key,
    ensures
        render_of(keys, key) == render_of(keys.skip(count), key),
    decreases count,
{
    if count > 0 {
        let rest = keys.skip(1);
        assert forall|i: int| 0 <= i < count - 1 implies (#[trigger] rest[i]).key != key by {
            assert(rest[i] == keys[i + 1]);
        }
        lemma_render_of_skip(rest, key, count - 1);
        assert(rest.skip(count - 1) =~= keys.skip(count));
        assert(keys[0].key != key);
    } else {
        assert(keys.skip(0) =~= keys);
    }
}

fn find_render<'a>(keys: &'a Vec<KeyRender>, key: &str) -> (found: Option<&'a KeyRender>)
    ensures
        match found {
            Some(render) => render_of(
                key_render_views(keys@),
                key@,
            ) == Some(render@),
            None => render_of(key_render_views(keys@), key@) is None,
        },
{
    let ghost all = key_render_views(keys@);
    for i in 0..keys.len()
        invariant
            all == key_render_views(keys@),
            forall|j: int| 0 <= j < i ==> (#[trigger] all[j]).key != key@,
    {
        if same_text(keys[i].key.as_str(), key) {
            proof {
                lemma_render_of_skip(all, key@, i as int);
                assert(all.skip(i as int)[0] == keys@[i as int]@);
            }
            return Some(&keys[i]);
        }
    }
    proof {
        lemma_render_of_skip(all, key@, all.len() as int);
    }
    None
}

fn all_differ(keys: &Vec<KeyRender>) -> (differ: bool)
    ensures
        differ == keys_differ(key_render_views(keys@)),
{
    let ghost all = key_render_views(keys@);
    for j in 0..keys.len()
        invariant
            all == key_render_views(keys@),
            forall|a: int, b: int|
                0 <= a < b < j ==> (#[trigger] all[a]).key != (#[trigger] all[b]).key,
    {
        for i in 0..j
            invariant
                all == key_render_views(keys@),
                j < keys.len(),
                forall|a: int| 0 <= a < i ==> (#[trigger] all[a]).key != all[j as int].key,
        {
            if same_text(keys[i].key.as_str(), keys[j].key.as_str()) {
                assert(all[i as int].key == all[j as int].key);
                return false;
            }
        }
    }
    true
}

/// The states of the ten keys, F1 first.
pub fn slots_for_plan(plan: &RenderPlan) -> (result: Result<[Status; 10], String>)
    ensures
        match (result, plan_slots(plan@)) {
            (Ok(slots), Ok(expected)) => slots@ == expected,
            (Err(message), Err(fault)) => message@ == fault.message(),
            _ => false,
        },
{
    if plan.keys.len() != 10 || !all_differ(&plan.keys) {
        return Err("render plan must contain exactly 10 Beckon keys".to_owned());
    }
    let mut slots = [Status::Unbound; 10];
    for index in 0..10usize
        invariant
            plan@.keys.len() == 10,
            keys_differ(plan@.keys),
            omitted_from(plan@.keys, 0) == omitted_from(plan@.keys, index as int),
            forall|i: int|
                0 <= i < index ==> #[trigger] slots@[i] == status_of_state(
                    (render_of(plan@.keys, key_ids()[i])->0).state,
                ),
    {
        assert(KEY_IDS[index as int]@ == key_ids()[index as int]);
        match find_render(&plan.keys, KEY_IDS[index]) {
            Some(render) => {
                slots[index] = status_for_state(render.state);
            },
            None => {
                return Err("render plan omitted ".to_owned().concat(KEY_IDS[index]));
            },
        }
    }
    assert(slots@ =~= plan_slots(plan@)->Ok_0);
    Ok(slots)
}

proof fn lemma_render_of(keys: Seq<KeyRenderView>, key: Seq<char>)
    ensures
        render_of(keys, key) is Some <==> (exists|i: int|
            0 <= i < keys.len() && (#[trigger] keys[i]).key == key),
    decreases keys.len(),
{
    if keys.len() > 0 && keys[0].key != key {
        let rest = keys.skip(1);
        lemma_render_of(rest, key);
        if render_of(keys, key) is Some {
            let i = choose|i: int| 0 <= i < rest.len() && (#[trigger] rest[i]).key == key;
            assert(keys[i + 1].key == key);
        } else if exists|i: int| 0 <= i < keys.len() && (#[trigger] keys[i]).key == key {
            let i = choose|i: int| 0 <= i < keys.len() && (#[trigger] keys[i]).key == key;
            assert(rest[i - 1].key == key);
        }
    }
}

proof fn lemma_nothing_omitted(plan: PlanView, start: int)
    requires
        0 <= start <= 10,
        shows_every_key(plan),
    ensures
        omitted_from(plan.keys, start) is None,
    decreases 10 - start,
{
    if start < 10 {
        lemma_nothing_omitted(plan, start + 1);
        let j = choose|j: int| 0 <= j < 10 && (#[trigger] plan.keys[j]).key == key_ids()[start];
        assert(plan.keys[j].key == key_ids()[start]);
        lemma_render_of(plan.keys, key_ids()[start]);
    }
}

/// Every rendered plan gives a snapshot.
pub proof fn law_rendered_plan_has_slots(display: DisplayView, rows: Seq<RowView>, plan: PlanView)
    requires
        plan_result(display, rows, Ok(plan)),
    ensures
        plan_slots(plan) is Ok,
{
    law_plan_shows_every_key(display, rows, plan);
    lemma_nothing_omitted(plan, 0);
}

/// The states given on the command line as the ten slots.
pub fn slots_from_states(states: &Vec<Status>) -> (result: Result<[Status; 10], String>)
    ensures
        match result {
            Ok(slots) => states.len() == 10 && slots@ == states@,
            Err(message) => states.len() != 10 && message@
                == "expected 10 states for F1 through F10, received "@ + decimal_of(
                states@.len(),
            ),
        },
{
    if states.len() != 10 {
        return Err(
            "expected 10 states for F1 through F10, received ".to_owned().concat(
                decimal(states.len() as u128).as_str(),
            ),
        );
    }
    let mut slots = [Status::Unbound; 10];
    for i in 0..10usize
        invariant
            states.len() == 10,
            forall|j: int| 0 <= j < i ==> #[trigger] slots@[j] == states@[j],
    {
        slots[i] = states[i];
    }
    assert(slots@ =~= states@);
    Ok(slots)
}

// ---------------------------------------------------------------------------
// Publishing
// ---------------------------------------------------------------------------

/// Why a snapshot was not written.
///
/// The missing endpoint is told apart from malformed reports and HID failures
/// without a look at human-readable text.
#[derive(Debug, PartialEq, Eq)]
pub enum WriteError {
    /// No keyboard with a status endpoint is attached.
    Unavailable,
    /// Anything else.
    Failed(String),
}

pub enum WriteFault {
    Unavailable,
    Failed(Seq<char>),
}

impl View for WriteError {
    type V = WriteFault;

    open spec fn view(&self) -> WriteFault {
        match *self {
            WriteError::Unavailable => WriteFault::Unavailable,
            WriteError::Failed(message) => WriteFault::Failed(message@),
        }
    }
}

impl WriteFault {
    /// The text shown to the user.
    pub open spec fn message(self) -> Seq<char> {
        match self {
            WriteFault::Unavailable =>
                "no Beckon USB status endpoint found (expected 16C0:27DB, usage page 0xFF60, usage 0x0061)"@,
            WriteFault::Failed(message) => message,
        }
    }
}

impl WriteError {
    /// The text shown to the user.
    pub fn message(&self) -> (text: String)
        ensures
            text@ == self@.message(),
    {
        match self {
            WriteError::Unavailable =>
                "no Beckon USB status endpoint found (expected 16C0:27DB, usage page 0xFF60, usage 0x0061)".to_owned(),
            WriteError::Failed(message) => message.clone(),
        }
    }
}

/// A write of a snapshot, with its answer.
pub struct WriterCall {
    pub snapshot: SnapshotView,
    pub answer: Result<(), WriteFault>,
}

/// The view of a write's answer.
pub open spec fn write_answer(answer: Result<(), WriteError>) -> Result<(), WriteFault> {
    match answer {
        Ok(()) => Ok(()),
        Err(error) => Err(error@),
    }
}

/// The narrow output boundary used by the daemon. Keeping it small lets the
/// state-to-transport policy be tested without a physical HID device.
pub trait StatusWriter {
    /// The writes made so far, oldest first, each with its answer. It is
    /// ghost: a writer that is not itself verified has nothing to define.
    open spec fn made(&self) -> Seq<WriterCall> {
        arbitrary()
    }

    /// Writes one snapshot to the keyboard.
    fn write_snapshot(&mut self, snapshot: StatusSnapshot) -> (answer: Result<(), WriteError>)
        ensures
            final(self).made() == old(self).made().push(
                WriterCall { snapshot: snapshot@, answer: write_answer(answer) },
            ),
    ;
}

/// Converts hardware-neutral render plans into snapshots and avoids rewriting
/// the keyboard until its ten meaningful states or their treatments change.
///
/// A failed write leaves what was last written as it was, so a later pass can
/// recover after a keyboard reconnects. Retrying immediately is expensive:
/// opening the endpoint enumerates every HID device. So a failed write defers
/// the next one.
pub struct RenderSink<W> {
    writer: W,
    last_snapshot: Option<([Status; 10], [Treatment; 5])>,
    next_sequence: u8,
    retry_after: Option<u128>,
}

/// What a sink remembers from pass to pass.
#[verifier::ext_equal]
pub struct SinkView {
    pub last: Option<(Seq<Status>, Seq<Treatment>)>,
    pub next_sequence: u8,
    pub retry_after: Option<u128>,
}

/// What a pass does.
pub enum SinkStep {
    /// The plan gives no snapshot.
    Refuse(PlanFault),
    /// Nothing has changed, or the next write is deferred.
    Wait,
    Write(SnapshotView),
}

/// What a pass with a plan at a moment does.
pub open spec fn sink_step(state: SinkView, plan: PlanView, now: u128) -> SinkStep {
    match plan_slots(plan) {
        Err(fault) => SinkStep::Refuse(fault),
        Ok(slots) => {
            let treatments = sent_treatments(plan.treatments);
            if state.last == Some((slots, treatments)) || (state.retry_after is Some && now
                < state.retry_after->0) {
                SinkStep::Wait
            } else {
                SinkStep::Write(
                    SnapshotView { sequence: state.next_sequence, slots, treatments },
                )
            }
        },
    }
}

/// What a sink remembers after a write at a moment.
pub open spec fn after_write(
    state: SinkView,
    snapshot: SnapshotView,
    answer: Result<(), WriteFault>,
    now: u128,
) -> SinkView {
    match answer {
        Ok(()) => SinkView {
            last: Some((snapshot.slots, snapshot.treatments)),
            next_sequence: state.next_sequence.wrapping_add(1),
            retry_after: None,
        },
        Err(_) => SinkView {
            last: state.last,
            next_sequence: state.next_sequence,
            retry_after: Some((now + DISCONNECTED_RETRY_DELAY) as u128),
        },
    }
}

/// The view of the result of a pass.
pub open spec fn sink_result(result: Result<bool, WriteError>) -> Result<bool, WriteFault> {
    match result {
        Ok(written) => Ok(written),
        Err(error) => Err(error@),
    }
}

/// One pass: what is written, what comes back, and what is remembered.
pub open spec fn sink_run(
    before: SinkView,
    calls: Seq<WriterCall>,
    after: SinkView,
    calls_after: Seq<WriterCall>,
    plan: PlanView,
    now: u128,
    result: Result<bool, WriteFault>,
) -> bool {
    match sink_step(before, plan, now) {
        SinkStep::Refuse(fault) => {
            &&& result == Err::<bool, WriteFault>(WriteFault::Failed(fault.message()))
            &&& after == before
            &&& calls_after == calls
        },
        SinkStep::Wait => {
            &&& result == Ok::<bool, WriteFault>(false)
            &&& after == before
            &&& calls_after == calls
        },
        SinkStep::Write(snapshot) => {
            let answer = calls_after.last().answer;
            &&& calls_after == calls.push(WriterCall { snapshot, answer })
            &&& after == after_write(before, snapshot, answer, now)
            &&& result == match answer {
                Ok(()) => Ok::<bool, WriteFault>(true),
                Err(fault) => Err::<bool, WriteFault>(fault),
            }
        },
    }
}

fn same_slots(left: &[Status; 10], right: &[Status; 10]) -> (same: bool)
    ensures
        same == (left@ == right@),
{
    for i in 0..10usize
        invariant
            forall|j: int| 0 <= j < i ==> left@[j] == right@[j],
    {
        if left[i] != right[i] {
            return false;
        }
    }
    assert(left@ =~= right@);
    true
}

fn same_sent(left: &[Treatment; 5], right: &[Treatment; 5]) -> (same: bool)
    ensures
        same == (left@ == right@),
{
    for i in 0..5usize
        invariant
            forall|j: int| 0 <= j < i ==> left@[j] == right@[j],
    {
        if left[i] != right[i] {
            return false;
        }
    }
    assert(left@ =~= right@);
    true
}

impl<W: StatusWriter> RenderSink<W> {
    /// Every write so far, oldest first.
    pub closed spec fn calls(&self) -> Seq<WriterCall> {
        self.writer.made()
    }

    /// The writer of the sink.
    pub closed spec fn inner(&self) -> W {
        self.writer
    }

    /// What the sink remembers.
    pub closed spec fn state(&self) -> SinkView {
        SinkView {
            last: match self.last_snapshot {
                Some((slots, treatments)) => Some((slots@, treatments@)),
                None => None,
            },
            next_sequence: self.next_sequence,
            retry_after: self.retry_after,
        }
    }
}

/// What a new sink remembers: nothing was written yet.
pub open spec fn new_sink() -> SinkView {
    SinkView { last: None, next_sequence: 0, retry_after: None }
}

impl<W: StatusWriter> RenderSink<W> {
    /// A sink that has written nothing yet.
    pub fn new(writer: W) -> (sink: Self)
        ensures
            sink.inner() == writer,
            sink.calls() == writer.made(),
            sink.state() == new_sink(),
    {
        RenderSink { writer, last_snapshot: None, next_sequence: 0, retry_after: None }
    }

    /// Offers a plan at the moment `now`, in nanoseconds on a monotonic clock.
    /// Returns whether a snapshot was written.
    pub fn publish(&mut self, plan: &RenderPlan, now: u128) -> (result: Result<bool, WriteError>)
        requires
            now + DISCONNECTED_RETRY_DELAY <= u128::MAX,
        ensures
            sink_run(
                old(self).state(),
                old(self).calls(),
                final(self).state(),
                final(self).calls(),
                plan@,
                now,
                sink_result(result),
            ),
    {
        let slots = match slots_for_plan(plan) {
            Ok(slots) => slots,
            Err(message) => {
                return Err(WriteError::Failed(message));
            },
        };
        let treatments = treatments_for_plan(plan);
        if let Some((last_slots, last_treatments)) = &self.last_snapshot {
            if same_slots(last_slots, &slots) && same_sent(last_treatments, &treatments) {
                return Ok(false);
            }
        }
        if let Some(retry_after) = self.retry_after {
            if now < retry_after {
                return Ok(false);
            }
        }
        let snapshot = StatusSnapshot { sequence: self.next_sequence, slots, treatments };
        if let Err(error) = self.writer.write_snapshot(snapshot) {
            self.retry_after = Some(now + DISCONNECTED_RETRY_DELAY);
            return Err(error);
        }
        self.last_snapshot = Some((slots, treatments));
        self.next_sequence = self.next_sequence.wrapping_add(1);
        self.retry_after = None;
        Ok(true)
    }

    /// The writer.
    pub fn into_inner(self) -> (writer: W)
        ensures
            writer == self.inner(),
    {
        self.writer
    }
}

/// A plan that was written is not written again: the next pass with it waits,
/// at any moment.
pub proof fn law_written_plan_is_not_rewritten(
    before: SinkView,
    calls: Seq<WriterCall>,
    after: SinkView,
    calls_after: Seq<WriterCall>,
    plan: PlanView,
    now: u128,
    later: u128,
)
    requires
        sink_run(before, calls, after, calls_after, plan, now, Ok(true)),
    ensures
        sink_step(after, plan, later) is Wait,
{
}

/// After a failed write nothing is written before the delay has passed; from
/// then on the same snapshot, with the same sequence number, is written again.
pub proof fn law_failed_write_is_retried(
    before: SinkView,
    calls: Seq<WriterCall>,
    after: SinkView,
    calls_after: Seq<WriterCall>,
    plan: PlanView,
    now: u128,
    fault: WriteFault,
    later: u128,
)
    requires
        now + DISCONNECTED_RETRY_DELAY <= u128::MAX,
        sink_run(before, calls, after, calls_after, plan, now, Err(fault)),
        sink_step(before, plan, now) is Write,
    ensures
        later < now + DISCONNECTED_RETRY_DELAY ==> sink_step(after, plan, later) is Wait,
        later >= now + DISCONNECTED_RETRY_DELAY ==> sink_step(after, plan, later) == sink_step(
            before,
            plan,
            now,
        ),
{
}

/// A sequence number is used up by a successful write and by nothing else.
pub proof fn law_sequence_counts_writes(
    before: SinkView,
    calls: Seq<WriterCall>,
    after: SinkView,
    calls_after: Seq<WriterCall>,
    plan: PlanView,
    now: u128,
    result: Result<bool, WriteFault>,
)
    requires
        sink_run(before, calls, after, calls_after, plan, now, result),
    ensures
        result == Ok::<bool, WriteFault>(true) ==> {
            &&& calls_after.last().snapshot.sequence == before.next_sequence
            &&& after.next_sequence == (before.next_sequence + 1) % 256
        },
        result != Ok::<bool, WriteFault>(true) ==> after.next_sequence == before.next_sequence,
{
}

// ---------------------------------------------------------------------------
// Endpoints
// ---------------------------------------------------------------------------

/// Printable description of a matching vendor HID interface.
#[derive(Debug, PartialEq, Eq)]
pub struct Endpoint {
    pub path: String,
    pub vendor_id: u16,
    pub product_id: u16,
    pub interface_number: i32,
    pub manufacturer: Option<String>,
    pub product: Option<String>,
    pub serial_number: Option<String>,
}

#[verifier::ext_equal]
pub struct EndpointView {
    pub path: Seq<char>,
    pub vendor_id: u16,
    pub product_id: u16,
    pub interface_number: i32,
    pub manufacturer: Option<Seq<char>>,
    pub product: Option<Seq<char>>,
    pub serial_number: Option<Seq<char>>,
}

impl View for Endpoint {
    type V = EndpointView;

    open spec fn view(&self) -> EndpointView {
        EndpointView {
            path: self.path@,
            vendor_id: self.vendor_id,
            product_id: self.product_id,
            interface_number: self.interface_number,
            manufacturer: option_view(self.manufacturer),
            product: option_view(self.product),
            serial_number: option_view(self.serial_number),
        }
    }
}

fn cloned_text(text: &Option<String>) -> (copy: Option<String>)
    ensures
        option_view(copy) == option_view(*text),
{
    match text {
        Some(text) => Some(text.clone()),
        None => None,
    }
}

impl Clone for Endpoint {
    fn clone(&self) -> (copy: Self)
        ensures
            copy@ == self@,
    {
        Endpoint {
            path: self.path.clone(),
            vendor_id: self.vendor_id,
            product_id: self.product_id,
            interface_number: self.interface_number,
            manufacturer: cloned_text(&self.manufacturer),
            product: cloned_text(&self.product),
            serial_number: cloned_text(&self.serial_number),
        }
    }
}

/// An attached HID interface: its description and its top-level usage.
#[derive(Debug)]
pub struct Device {
    pub endpoint: Endpoint,
    pub usage_page: u16,
    pub usage: u16,
}

impl Device {
    /// Whether the interface is Beckon's status endpoint. The firmware exposes
    /// it through USB only, so vendor, product, page and usage avoid the
    /// normal keyboard interfaces.
    pub open spec fn is_status(&self) -> bool {
        &&& self.endpoint.vendor_id == GLOVE80_VENDOR_ID
        &&& self.endpoint.product_id == GLOVE80_PRODUCT_ID
        &&& self.usage_page == VENDOR_USAGE_PAGE
        &&& self.usage == STATUS_USAGE
    }
}

/// Whether an interface is Beckon's status endpoint.
pub fn is_status_endpoint(device: &Device) -> (matches: bool)
    ensures
        matches == device.is_status(),
{
    device.endpoint.vendor_id == GLOVE80_VENDOR_ID && device.endpoint.product_id
        == GLOVE80_PRODUCT_ID && device.usage_page == VENDOR_USAGE_PAGE && device.usage
        == STATUS_USAGE
}

/// The positions of the status endpoints among the interfaces, ascending.
pub open spec fn status_positions(devices: Seq<Device>) -> Seq<int>
    decreases devices.len(),
{
    if devices.len() == 0 {
        Seq::empty()
    } else {
        let earlier = status_positions(devices.drop_last());
        if devices.last().is_status() {
            earlier.push(devices.len() - 1)
        } else {
            earlier
        }
    }
}

/// Lists the status endpoints among the attached interfaces.
pub fn status_endpoints(devices: &Vec<Device>) -> (endpoints: Vec<Endpoint>)
    ensures
        endpoints.len() == status_positions(devices@).len(),
        forall|i: int|
            0 <= i < endpoints.len() ==> (#[trigger] endpoints@[i])@ == devices@[status_positions(
                devices@,
            )[i]].endpoint@,
{
    let mut endpoints: Vec<Endpoint> = Vec::new();
    proof {
        assert(devices@.take(0) =~= Seq::empty());
    }
    for i in 0..devices.len()
        invariant
            endpoints.len() == status_positions(devices@.take(i as int)).len(),
            forall|j: int|
                0 <= j < endpoints.len() ==> (#[trigger] endpoints@[j])@
                    == devices@[status_positions(devices@.take(i as int))[j]].endpoint@,
    {
        proof {
            assert(devices@.take(i + 1).drop_last() =~= devices@.take(i as int));
            assert(devices@.take(i + 1).last() == devices@[i as int]);
        }
        if is_status_endpoint(&devices[i]) {
            endpoints.push(devices[i].endpoint.clone());
        }
    }
    assert(devices@.take(devices.len() as int) =~= devices@);
    endpoints
}

/// The four hexadecimal digits of a number.
pub open spec fn hex_word(number: u16) -> Seq<char> {
    hex_pair((number / 256) as u8) + hex_pair((number % 256) as u8)
}

fn append_hex_word(text: &mut String, number: u16)
    ensures
        final(text)@ == old(text)@ + hex_word(number),
{
    append_hex(text, (number / 256) as u8);
    append_hex(text, (number % 256) as u8);
    assert(text@ =~= old(text)@ + hex_word(number));
}

/// The vendor and the product of an endpoint.
pub open spec fn endpoint_ids(endpoint: EndpointView) -> Seq<char> {
    hex_word(endpoint.vendor_id) + ":"@ + hex_word(endpoint.product_id)
}

fn ids_text(endpoint: &Endpoint) -> (text: String)
    ensures
        text@ == endpoint_ids(endpoint@),
{
    let mut text = "".to_owned();
    append_hex_word(&mut text, endpoint.vendor_id);
    let mut text = text.concat(":");
    append_hex_word(&mut text, endpoint.product_id);
    proof {
        reveal_strlit("");
        assert(text@ =~= endpoint_ids(endpoint@));
    }
    text
}

/// The line that lists an endpoint.
pub open spec fn listed_line(endpoint: EndpointView) -> Seq<char> {
    endpoint_ids(endpoint) + "\tinterface="@ + signed_decimal(endpoint.interface_number as int)
        + "\t"@ + endpoint.path
}

/// The lines that list the endpoints, or say that there are none.
pub fn list_lines(endpoints: &Vec<Endpoint>) -> (lines: Vec<String>)
    ensures
        endpoints.len() == 0 ==> views(lines@) == seq![
            "No Beckon USB status endpoints found (expected 16C0:27DB, usage page 0xFF60, usage 0x0061)."@,
        ],
        endpoints.len() > 0 ==> views(lines@) == endpoints@.map_values(
            |endpoint: Endpoint| listed_line(endpoint@),
        ),
{
    let mut lines: Vec<String> = Vec::new();
    if endpoints.len() == 0 {
        lines.push(
            "No Beckon USB status endpoints found (expected 16C0:27DB, usage page 0xFF60, usage 0x0061).".to_owned(),
        );
        assert(views(lines@) =~= seq![
            "No Beckon USB status endpoints found (expected 16C0:27DB, usage page 0xFF60, usage 0x0061)."@,
        ]);
        return lines;
    }
    for i in 0..endpoints.len()
        invariant
            lines.len() == i,
            forall|j: int| 0 <= j < i ==> (#[trigger] lines@[j])@ == listed_line(endpoints@[j]@),
    {
        let endpoint = &endpoints[i];
        lines.push(
            ids_text(endpoint).concat("\tinterface=").concat(
                signed(endpoint.interface_number as i64).as_str(),
            ).concat("\t").concat(endpoint.path.as_str()),
        );
    }
    assert(views(lines@) =~= endpoints@.map_values(|endpoint: Endpoint| listed_line(endpoint@)));
    lines
}

/// The line that reports an endpoint that could be opened.
pub fn probe_line(endpoint: &Endpoint) -> (line: String)
    ensures
        line@ == "Opened Beckon USB status endpoint "@ + endpoint_ids(endpoint@) + " interface "@
            + signed_decimal(endpoint.interface_number as int) + " at "@ + endpoint.path@,
{
    "Opened Beckon USB status endpoint ".to_owned().concat(ids_text(endpoint).as_str()).concat(
        " interface ",
    ).concat(signed(endpoint.interface_number as i64).as_str()).concat(" at ").concat(
        endpoint.path.as_str(),
    )
}

/// The line that reports a snapshot that was sent.
pub fn sent_line(sequence: u8) -> (line: String)
    ensures
        line@ == "Sent valid Beckon status snapshot sequence "@ + decimal_of(sequence as nat)
            + "."@,
{
    "Sent valid Beckon status snapshot sequence ".to_owned().concat(
        decimal(sequence as u128).as_str(),
    ).concat(".")
}

/// Why no endpoint is opened.
#[derive(Debug, PartialEq, Eq)]
pub enum SelectError {
    /// No keyboard with a status endpoint is attached.
    Unavailable,
    /// There are several.
    Several(usize),
}

/// Picks the one status endpoint among the attached interfaces: its position.
pub fn only_endpoint(devices: &Vec<Device>) -> (result: Result<usize, SelectError>)
    ensures
        match result {
            Ok(position) => status_positions(devices@) == seq![position as int],
            Err(SelectError::Unavailable) => status_positions(devices@).len() == 0,
            Err(SelectError::Several(count)) => count == status_positions(devices@).len() && count
                > 1,
        },
{
    let mut count: usize = 0;
    let mut first: usize = 0;
    proof {
        assert(devices@.take(0) =~= Seq::empty());
    }
    for i in 0..devices.len()
        invariant
            count == status_positions(devices@.take(i as int)).len(),
            count <= i,
            count > 0 ==> status_positions(devices@.take(i as int))[0] == first,
    {
        proof {
            assert(devices@.take(i + 1).drop_last() =~= devices@.take(i as int));
            assert(devices@.take(i + 1).last() == devices@[i as int]);
        }
        if is_status_endpoint(&devices[i]) {
            if count == 0 {
                first = i;
            }
            count = count + 1;
        }
    }
    assert(devices@.take(devices.len() as int) =~= devices@);
    if count == 0 {
        Err(SelectError::Unavailable)
    } else if count == 1 {
        assert(status_positions(devices@) =~= seq![first as int]);
        Ok(first)
    } else {
        Err(SelectError::Several(count))
    }
}

/// The error of an operation that found no single endpoint; `purpose` says
/// what it would have done.
pub fn selection_error(error: &SelectError, purpose: &str) -> (refusal: WriteError)
    ensures
        refusal@ == match *error {
            SelectError::Unavailable => WriteFault::Unavailable,
            SelectError::Several(count) => WriteFault::Failed(
                "found "@ + decimal_of(count as nat)
                    + " Beckon status endpoints; disconnect other matching keyboards before "@
                    + purpose@,
            ),
        },
{
    match error {
        SelectError::Unavailable => WriteError::Unavailable,
        SelectError::Several(count) => WriteError::Failed(
            "found ".to_owned().concat(decimal(*count as u128).as_str()).concat(
                " Beckon status endpoints; disconnect other matching keyboards before ",
            ).concat(purpose),
        ),
    }
}

/// Accepts a write of a whole report.
pub fn check_written(written: usize, length: usize) -> (result: Result<(), String>)
    ensures
        match result {
            Ok(()) => written == length,
            Err(message) => written != length && message@
                == "short Beckon USB status write: wrote "@ + decimal_of(written as nat) + " of "@
                + decimal_of(length as nat) + " bytes"@,
        },
{
    if written != length {
        return Err(
            "short Beckon USB status write: wrote ".to_owned().concat(
                decimal(written as u128).as_str(),
            ).concat(" of ").concat(decimal(length as u128).as_str()).concat(" bytes"),
        );
    }
    Ok(())
}

/// The deliberately malformed short report of the physical rejection test.
pub fn malformed_report() -> (report: [u8; 31])
    ensures
        report@.len() == REPORT_SIZE - 1,
        forall|i: int| 0 <= i < 31 ==> report@[i] == PROTOCOL_VERSION,
        forall|snapshot: SnapshotView| !#[trigger] report_holds(report@, snapshot),
{
    [2; 31]
}

} // verus!
