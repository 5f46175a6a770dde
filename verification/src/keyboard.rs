//! The keyboard: scancodes decoded by the layout, typed characters queued
//! as UTF-8 for readers of standard input, arrow keys queued as ANSI
//! cursor sequences, and a reader waiting for a key woken.

use vstd::prelude::*;
use vstd::utf8::{
    encode_scalar, has_width_1_encoding, has_width_2_encoding, has_width_3_encoding, last_continuation_byte,
    leading_byte_width_1, leading_byte_width_2, leading_byte_width_3, leading_byte_width_4,
    second_last_continuation_byte, third_last_continuation_byte,
};
use pc_keyboard::{layouts, DecodedKey, KeyCode, KeyEvent, KeyState, PS2Keyboard, ScancodeSet1};
use crate::ringbuf::{push_all, RingBuf};
use crate::scheduler::{slot_of, with_state, Scheduler};
use crate::process::{ReadyMode, SchedulerState};

verus! {

/// The decoder of the keyboard's byte stream: scancode set 1, French
/// layout, control keys not mapped. It is held in a struct of this library
/// because Verus refuses to declare the decoder's type, whose parameters
/// carry bounds on traits of its crate; its state is opaque here.
#[verifier::external_body]
pub struct KeyDecoder {
    kb: PS2Keyboard<layouts::Azerty, ScancodeSet1>,
}

/// `PS2Keyboard::new` with scancode set 1, the French layout and control
/// keys left unmapped.
#[verifier::external_body]
fn key_decoder_new() -> (r: KeyDecoder) {
    KeyDecoder { kb: PS2Keyboard::new(ScancodeSet1::new(), layouts::Azerty, pc_keyboard::HandleControl::Ignore) }
}

/// A key going down or up.
#[verifier::external_type_specification]
#[verifier::external_body]
pub struct ExKeyEvent(KeyEvent);

/// A decoded key, as far as the console cares.
#[derive(Clone, Copy, Debug, PartialEq, Eq, Structural)]
pub enum KeyInput {
    Unicode(char),
    ArrowLeft,
    ArrowRight,
    ArrowDown,
    ArrowUp,
    LShift,
    LControl,
    Other,
}

/// `PS2Keyboard::add_byte`: feeds one scancode byte to the decoder; a
/// complete press or release comes back as an event. What comes back
/// depends on the bytes fed before, which the decoder keeps; nothing is
/// stated of it.
#[verifier::external_body]
fn keyboard_add_byte(kb: &mut KeyDecoder, byte: u8) -> (r: Option<KeyEvent>) {
    match kb.kb.add_byte(byte) {
        Ok(ev) => ev,
        Err(_) => None,
    }
}

/// Whether the event is a key going down (`KeyState::Down`).
#[verifier::external_body]
fn key_event_is_down(ev: &KeyEvent) -> (r: bool) {
    ev.state == KeyState::Down
}

/// `PS2Keyboard::process_keyevent`: the key the event gives under the
/// layout and the modifiers held; nothing is stated of it, as it depends
/// on the modifiers the decoder keeps.
#[verifier::external_body]
fn keyboard_process_keyevent(kb: &mut KeyDecoder, ev: KeyEvent) -> (r: Option<KeyInput>) {
    match kb.kb.process_keyevent(ev) {
        Some(DecodedKey::Unicode(c)) => Some(KeyInput::Unicode(c)),
        Some(DecodedKey::RawKey(KeyCode::ArrowLeft)) => Some(KeyInput::ArrowLeft),
        Some(DecodedKey::RawKey(KeyCode::ArrowRight)) => Some(KeyInput::ArrowRight),
        Some(DecodedKey::RawKey(KeyCode::ArrowDown)) => Some(KeyInput::ArrowDown),
        Some(DecodedKey::RawKey(KeyCode::ArrowUp)) => Some(KeyInput::ArrowUp),
        Some(DecodedKey::RawKey(KeyCode::LShift)) => Some(KeyInput::LShift),
        Some(DecodedKey::RawKey(KeyCode::LControl)) => Some(KeyInput::LControl),
        Some(DecodedKey::RawKey(_)) => Some(KeyInput::Other),
        None => None,
    }
}

/// The UTF-8 bytes of `c`.
pub fn utf8_of_char(c: char) -> (r: Vec<u8>)
    ensures
        r@ == encode_scalar(c as u32),
{
    let v = c as u32;
    let mut out: Vec<u8> = Vec::new();
    if v <= 0x7F {
        out.push((v & 0x7F) as u8);
        proof {
            assert(out@ =~= seq![leading_byte_width_1(v)]);
        }
    } else if v <= 0x7FF {
        out.push(0xC0u8 | ((v >> 6u32) & 0x1F) as u8);
        out.push(0x80u8 | (v & 0x3F) as u8);
        proof {
            assert(out@ =~= seq![leading_byte_width_2(v), last_continuation_byte(v)]);
        }
    } else if v <= 0xFFFF {
        out.push(0xE0u8 | ((v >> 12u32) & 0x0F) as u8);
        out.push(0x80u8 | ((v >> 6u32) & 0x3F) as u8);
        out.push(0x80u8 | (v & 0x3F) as u8);
        proof {
            assert(has_width_3_encoding(v));
            assert(out@ =~= seq![leading_byte_width_3(v), second_last_continuation_byte(v), last_continuation_byte(v)]);
        }
    } else {
        out.push(0xF0u8 | ((v >> 18u32) & 0x7) as u8);
        out.push(0x80u8 | ((v >> 12u32) & 0x3F) as u8);
        out.push(0x80u8 | ((v >> 6u32) & 0x3F) as u8);
        out.push(0x80u8 | (v & 0x3F) as u8);
        proof {
            assert(!has_width_1_encoding(v) && !has_width_2_encoding(v) && !has_width_3_encoding(v));
            assert(out@ =~= seq![
                leading_byte_width_4(v),
                third_last_continuation_byte(v),
                second_last_continuation_byte(v),
                last_continuation_byte(v),
            ]);
        }
    }
    out
}

/// The bytes a key puts in the input queue: its UTF-8 encoding for a
/// character, `ESC [ D`, `C`, `B`, `A` for the arrows, none otherwise.
pub open spec fn key_bytes(input: KeyInput) -> Seq<u8> {
    match input {
        KeyInput::Unicode(c) => encode_scalar(c as u32),
        KeyInput::ArrowLeft => seq![0x1bu8, 0x5bu8, 0x44u8],
        KeyInput::ArrowRight => seq![0x1bu8, 0x5bu8, 0x43u8],
        KeyInput::ArrowDown => seq![0x1bu8, 0x5bu8, 0x42u8],
        KeyInput::ArrowUp => seq![0x1bu8, 0x5bu8, 0x41u8],
        _ => Seq::empty(),
    }
}

/// Whether the key wakes a reader: it does when it queues bytes.
pub open spec fn key_wakes(input: KeyInput) -> bool {
    input is Unicode || input is ArrowLeft || input is ArrowRight || input is ArrowDown || input is ArrowUp
}

fn arrow_sequence(last: u8) -> (r: Vec<u8>)
    ensures
        r@ == seq![0x1bu8, 0x5bu8, last],
{
    let mut v: Vec<u8> = Vec::new();
    v.push(0x1bu8);
    v.push(0x5bu8);
    v.push(last);
    proof {
        assert(v@ =~= seq![0x1bu8, 0x5bu8, last]);
    }
    v
}

/// What the scheduler needs to wake a waiting reader.
pub open spec fn waiters_exist(s: &Scheduler) -> bool {
    forall|j: int|
        0 <= j < s.processes_waiting_keyboard@.len() ==> slot_of(
            s.processes@,
            #[trigger] s.processes_waiting_keyboard@[j],
        ) is Some
}

/// The effect of handling the key `input` going down (`is_down`) or up:
/// its bytes are queued, the control key's state is remembered, and a key
/// that wakes readers wakes the oldest one.
pub open spec fn key_handled(
    input: KeyInput,
    is_down: bool,
    ctrl_before: bool,
    ctrl_after: bool,
    queue_before: Seq<u8>,
    queue_after: Seq<u8>,
    old: &Scheduler,
    new: &Scheduler,
) -> bool {
    &&& queue_after == push_all(queue_before, key_bytes(input), 512)
    &&& ctrl_after == if input is LControl { is_down } else { ctrl_before }
    &&& !key_wakes(input) ==> *new == *old
    &&& key_wakes(input) ==> woke_oldest(old, new)
}

/// The queue after the key bytes `seq` land in a 512-byte queue that held
/// `q0`: the last three bytes are `seq`, and nothing is dropped while there
/// is room.
pub open spec fn ends_with_sequence(q0: Seq<u8>, q1: Seq<u8>, seq3: Seq<u8>) -> bool {
    &&& q0.len() + 3 <= 512 ==> q1 == q0 + seq3
    &&& q1.len() >= 3 && q1.subrange(q1.len() - 3, q1.len() as int) == seq3
}

proof fn lemma_three_bytes_land(q0: Seq<u8>, seq3: Seq<u8>)
    requires
        q0.len() <= 512,
        seq3.len() == 3,
    ensures
        ends_with_sequence(q0, push_all(q0, seq3, 512), seq3),
{
    crate::ringbuf::lemma_push_all_keeps_last(q0, seq3, 512);
    let all = q0 + seq3;
    let lo = if all.len() > 512 { all.len() - 512 } else { 0 };
    let q1 = push_all(q0, seq3, 512);
    assert(q1 == all.subrange(lo, all.len() as int));
    if q0.len() + 3 <= 512 {
        assert(all.subrange(0, all.len() as int) =~= all);
    }
    assert(q1.subrange(q1.len() - 3, q1.len() as int) =~= seq3);
}

/// The arrow keys put the ANSI cursor sequences in the input queue, down or
/// up: left `ESC [ D`, right `ESC [ C`, up `ESC [ A`, down `ESC [ B`.
pub proof fn lemma_arrow_sequences(
    is_down: bool,
    ctrl_before: bool,
    ctrl_after: bool,
    q0: Seq<u8>,
    q1: Seq<u8>,
    old: &Scheduler,
    new: &Scheduler,
)
    requires
        q0.len() <= 512,
    ensures
        key_handled(KeyInput::ArrowLeft, is_down, ctrl_before, ctrl_after, q0, q1, old, new) ==> ends_with_sequence(
            q0,
            q1,
            seq![0x1bu8, 0x5bu8, 0x44u8],
        ),
        key_handled(KeyInput::ArrowRight, is_down, ctrl_before, ctrl_after, q0, q1, old, new) ==> ends_with_sequence(
            q0,
            q1,
            seq![0x1bu8, 0x5bu8, 0x43u8],
        ),
        key_handled(KeyInput::ArrowUp, is_down, ctrl_before, ctrl_after, q0, q1, old, new) ==> ends_with_sequence(
            q0,
            q1,
            seq![0x1bu8, 0x5bu8, 0x41u8],
        ),
        key_handled(KeyInput::ArrowDown, is_down, ctrl_before, ctrl_after, q0, q1, old, new) ==> ends_with_sequence(
            q0,
            q1,
            seq![0x1bu8, 0x5bu8, 0x42u8],
        ),
{
    lemma_three_bytes_land(q0, seq![0x1bu8, 0x5bu8, 0x44u8]);
    lemma_three_bytes_land(q0, seq![0x1bu8, 0x5bu8, 0x43u8]);
    lemma_three_bytes_land(q0, seq![0x1bu8, 0x5bu8, 0x41u8]);
    lemma_three_bytes_land(q0, seq![0x1bu8, 0x5bu8, 0x42u8]);
}

/// Handles a decoded key: queues its bytes and wakes the oldest waiting
/// reader; the control key's state is remembered.
pub fn handle_key(
    input: KeyInput,
    is_down: bool,
    ctrl_down: &mut bool,
    queue: &mut RingBuf<u8, 512>,
    scheduler: &mut Scheduler,
)
    requires
        old(queue).wf(),
        waiters_exist(old(scheduler)),
    ensures
        final(queue).wf(),
        key_handled(
            input,
            is_down,
            *old(ctrl_down),
            *final(ctrl_down),
            old(queue).items(),
            final(queue).items(),
            old(scheduler),
            final(scheduler),
        ),
{
    let bytes = match input {
        KeyInput::Unicode(c) => utf8_of_char(c),
        KeyInput::ArrowLeft => arrow_sequence(0x44u8),
        KeyInput::ArrowRight => arrow_sequence(0x43u8),
        KeyInput::ArrowDown => arrow_sequence(0x42u8),
        KeyInput::ArrowUp => arrow_sequence(0x41u8),
        KeyInput::LControl => {
            *ctrl_down = is_down;
            proof {
                assert(queue.items() == push_all(queue.items(), Seq::<u8>::empty(), 512));
            }
            return;
        },
        _ => {
            proof {
                assert(queue.items() == push_all(queue.items(), Seq::<u8>::empty(), 512));
            }
            return;
        },
    };
    queue.extend(bytes.as_slice());
    scheduler.new_char();
}

/// `new` is `old` after a typed key woke the oldest process waiting for one.
pub open spec fn woke_oldest(old: &Scheduler, new: &Scheduler) -> bool {
    if old.processes_waiting_keyboard@.len() == 0 {
        *new == *old
    } else {
        let pid = old.processes_waiting_keyboard@[0];
        &&& new.processes_waiting_keyboard@ == old.processes_waiting_keyboard@.drop_first()
        &&& new.processes@ == with_state(
            old.processes@,
            slot_of(old.processes@, pid)->Some_0,
            SchedulerState::Ready(ReadyMode::Kernel),
        )
        &&& new.runnable_processes@ == if old.current_process != Some(pid) && !old.runnable_processes@.contains(pid) {
            old.runnable_processes@.push(pid)
        } else {
            old.runnable_processes@
        }
        &&& new.current_process == old.current_process
    }
}

/// A scancode arrived: it goes through the decoder, and a completed key is
/// handled.
pub fn keyboard_interrupt(
    kb: &mut KeyDecoder,
    scancode: u8,
    ctrl_down: &mut bool,
    queue: &mut RingBuf<u8, 512>,
    scheduler: &mut Scheduler,
)
    requires
        old(queue).wf(),
        waiters_exist(old(scheduler)),
    ensures
        final(queue).wf(),
        (final(queue).items() == old(queue).items() && *final(scheduler) == *old(scheduler) && *final(ctrl_down)
            == *old(ctrl_down)) || exists|input: KeyInput, is_down: bool|
            #[trigger] key_handled(
                input,
                is_down,
                *old(ctrl_down),
                *final(ctrl_down),
                old(queue).items(),
                final(queue).items(),
                old(scheduler),
                final(scheduler),
            ),
{
    let ev = match keyboard_add_byte(kb, scancode) {
        Some(ev) => ev,
        None => return,
    };
    let is_down = key_event_is_down(&ev);
    match keyboard_process_keyevent(kb, ev) {
        Some(input) => handle_key(input, is_down, ctrl_down, queue, scheduler),
        None => {},
    }
}

/// The keyboard driver's state: the decoder and whether the left control
/// key is held.
pub struct Keyboard {
    pub decoder: KeyDecoder,
    pub ctrl_down: bool,
}

impl Keyboard {
    /// A keyboard with no key held.
    pub fn new() -> (k: Keyboard)
        ensures
            !k.ctrl_down,
    {
        Keyboard { decoder: key_decoder_new(), ctrl_down: false }
    }
}

} // verus!
