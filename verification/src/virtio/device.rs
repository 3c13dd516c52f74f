//! Input events from a virtio input device: each event (type, code,
//! value) is decoded into a key or a mouse movement, and what the decoding
//! gives becomes the updates of the input buffers.

use vstd::prelude::*;
use super::keyboard::{Key, key_of_code, char_of_key};
use virtio_input_decoder::{Decoder, DecodeType, KeyType, Mouse};

verus! {

/// A key went down or came up.
#[derive(Debug, Clone, Copy, PartialEq, Eq)]
pub enum KeyAction {
    Press,
    Release,
}

/// A decoded input event: a key (by its code), the wheel, or a position
/// on one axis.
#[derive(Debug, Clone, Copy, PartialEq, Eq)]
pub enum DecodedInput {
    Key(usize, KeyAction),
    ScrollUp,
    ScrollDown,
    X(usize),
    Y(usize),
}

/// An update of the input buffers.
#[derive(Debug, Clone, Copy, PartialEq, Eq)]
pub enum InputAction {
    KeyPress(u16),
    KeyRelease(u16),
    Input(char),
    Scroll(u16),
    MouseX(usize),
    MouseY(usize),
}

/// The key codes the decoder knows: the keyboard keys and the three mouse
/// buttons.
pub open spec fn key_code_known(code: usize) -> bool {
    1 <= code <= 58 || 272 <= code <= 274
}

/// What the decoder gives for a mouse event, if it knows it.
pub open spec fn mouse_decode(code: usize, value: usize) -> Option<DecodedInput> {
    if code == 8 && value == 1 || code == 0x151 && value == 0 {
        Some(DecodedInput::ScrollUp)
    } else if code == 8 && value == 0xffff_ffff || code == 0x150 && value == 0 {
        Some(DecodedInput::ScrollDown)
    } else if code == 0 {
        Some(DecodedInput::X(value))
    } else if code == 1 {
        Some(DecodedInput::Y(value))
    } else {
        None
    }
}

/// The events on which the decoder panics: a mouse event it does not know,
/// a key event below code 0x150 with an unknown code or a value other than
/// 0 or 1.
pub open spec fn decode_panics(etype: usize, code: usize, value: usize) -> bool {
    ||| (etype == 2 || etype == 3) && mouse_decode(code, value) is None
    ||| etype == 1 && code < 0x150 && (!key_code_known(code) || (value != 0 && value != 1))
}

/// What the decoder gives for an event on which it does not panic: mouse
/// events for types 2 and 3, keys (pressed on value 1) for type 1 below
/// code 0x150, an error otherwise.
pub open spec fn decode_spec(etype: usize, code: usize, value: usize) -> Result<DecodedInput, ()> {
    if etype == 2 || etype == 3 {
        match mouse_decode(code, value) {
            Some(d) => Ok(d),
            None => Err(()),
        }
    } else if etype == 1 && code < 0x150 {
        Ok(
            DecodedInput::Key(
                code,
                if value == 1 {
                    KeyAction::Press
                } else {
                    KeyAction::Release
                },
            ),
        )
    } else {
        Err(())
    }
}

/// `virtio_input_decoder::Decoder::decode`: turns an event into a key
/// with its code (the crate's key values are their codes) and whether it
/// went down, or a mouse movement. Its table is the one `decode_spec`
/// writes out; it panics on the events of `decode_panics`.
#[verifier::external_body]
fn decode_event(etype: usize, code: usize, value: usize) -> (r: Result<DecodedInput, ()>)
    requires
        !decode_panics(etype, code, value),
    ensures
        r == decode_spec(etype, code, value),
{
    match Decoder::decode(etype, code, value) {
        Ok(DecodeType::Key(k, KeyType::Press)) => Ok(DecodedInput::Key(k as usize, KeyAction::Press)),
        Ok(DecodeType::Key(k, KeyType::Release)) => Ok(DecodedInput::Key(k as usize, KeyAction::Release)),
        Ok(DecodeType::Mouse(Mouse::ScrollUp)) => Ok(DecodedInput::ScrollUp),
        Ok(DecodeType::Mouse(Mouse::ScrollDown)) => Ok(DecodedInput::ScrollDown),
        Ok(DecodeType::Mouse(Mouse::X(x))) => Ok(DecodedInput::X(x)),
        Ok(DecodeType::Mouse(Mouse::Y(y))) => Ok(DecodedInput::Y(y)),
        Err(()) => Err(()),
    }
}

/// The buffer updates for a decoded event: a pressed key is recorded and,
/// when it stands for a character, that character is input; a released key
/// is recorded; the wheel records 1 up and 2 down; positions are recorded
/// on their axis; an event that did not decode changes nothing.
pub open spec fn actions_of(d: Result<DecodedInput, ()>) -> Seq<InputAction> {
    match d {
        Ok(DecodedInput::Key(k, KeyAction::Press)) => match char_of_key(key_of_code(k as u16)) {
            Some(c) => seq![InputAction::KeyPress(k as u16), InputAction::Input(c)],
            None => seq![InputAction::KeyPress(k as u16)],
        },
        Ok(DecodedInput::Key(k, KeyAction::Release)) => seq![InputAction::KeyRelease(k as u16)],
        Ok(DecodedInput::ScrollUp) => seq![InputAction::Scroll(1)],
        Ok(DecodedInput::ScrollDown) => seq![InputAction::Scroll(2)],
        Ok(DecodedInput::X(x)) => seq![InputAction::MouseX(x)],
        Ok(DecodedInput::Y(y)) => seq![InputAction::MouseY(y)],
        Err(()) => Seq::empty(),
    }
}

/// The buffer updates for the decoded event `d`.
pub fn input_actions(d: Result<DecodedInput, ()>) -> (r: Vec<InputAction>)
    ensures
        r@ == actions_of(d),
{
    let mut r: Vec<InputAction> = Vec::new();
    match d {
        Ok(DecodedInput::Key(k, KeyAction::Press)) => {
            let code = k as u16;
            r.push(InputAction::KeyPress(code));
            match Key::from(code).to_char() {
                Some(c) => r.push(InputAction::Input(c)),
                None => {},
            }
        },
        Ok(DecodedInput::Key(k, KeyAction::Release)) => {
            r.push(InputAction::KeyRelease(k as u16));
        },
        Ok(DecodedInput::ScrollUp) => {
            r.push(InputAction::Scroll(1));
        },
        Ok(DecodedInput::ScrollDown) => {
            r.push(InputAction::Scroll(2));
        },
        Ok(DecodedInput::X(x)) => {
            r.push(InputAction::MouseX(x));
        },
        Ok(DecodedInput::Y(y)) => {
            r.push(InputAction::MouseY(y));
        },
        Err(()) => {},
    }
    proof {
        assert(r@ =~= actions_of(d));
    }
    r
}

/// Decodes one event of an input device and gives the buffer updates it
/// calls for.
pub fn handle_input(etype: usize, code: usize, value: usize) -> (r: Vec<InputAction>)
    requires
        !decode_panics(etype, code, value),
    ensures
        r@ == actions_of(decode_spec(etype, code, value)),
{
    let d = decode_event(etype, code, value);
    input_actions(d)
}

/// Whether the decoder panics on the event (type `etype`, code `code`,
/// value `value`); `handle_input` takes only events on which it does not.
pub fn decoder_panics(etype: usize, code: usize, value: usize) -> (r: bool)
    ensures
        r == decode_panics(etype, code, value),
{
    let mouse_known = code == 8 && value == 1 || code == 0x151 && value == 0 || code == 8 && value == 0xffff_ffff
        || code == 0x150 && value == 0 || code == 0 || code == 1;
    let key_known = 1 <= code && code <= 58 || 272 <= code && code <= 274;
    (etype == 2 || etype == 3) && !mouse_known || etype == 1 && code < 0x150 && (!key_known || (value != 0
        && value != 1))
}

/// Whether a graphics device is there.
pub fn gpu_support(gpu_count: usize) -> (r: bool)
    ensures
        r == (gpu_count > 0),
{
    gpu_count > 0
}

/// The first virtio device slot.
pub const VIRTIO_START_ADDR: usize = 0x1000_1000;
/// The last virtio device slot.
pub const VIRTIO_END_ADDR: usize = 0x1000_8000;
/// The distance between device slots.
pub const VIRTIO_STEP_SIZE: usize = 0x1000;
/// The magic value a present device shows ("virt").
pub const VIRTIO_VAL: u32 = 0x74726976;

/// The kinds of device the kernel drives.
#[derive(Debug, Clone, Copy, PartialEq, Eq, Structural)]
pub enum DeviceKind {
    Unknown,
    Block,
    Gpu,
    Input,
}

/// The slots to probe for devices, in order.
pub fn probe_addresses() -> (r: Vec<usize>)
    ensures
        r@.len() == 8,
        forall|i: int| 0 <= i < 8 ==> #[trigger] r@[i] == VIRTIO_START_ADDR + i * VIRTIO_STEP_SIZE,
{
    let mut v: Vec<usize> = Vec::new();
    let mut a = VIRTIO_START_ADDR;
    while a <= VIRTIO_END_ADDR
        invariant
            VIRTIO_START_ADDR <= a <= VIRTIO_END_ADDR + VIRTIO_STEP_SIZE,
            (a - VIRTIO_START_ADDR) % (VIRTIO_STEP_SIZE as int) == 0,
            v@.len() == (a - VIRTIO_START_ADDR) / (VIRTIO_STEP_SIZE as int),
            forall|i: int| 0 <= i < v@.len() ==> #[trigger] v@[i] == VIRTIO_START_ADDR + i * VIRTIO_STEP_SIZE,
        decreases VIRTIO_END_ADDR + VIRTIO_STEP_SIZE - a,
    {
        v.push(a);
        a = a + VIRTIO_STEP_SIZE;
    }
    v
}

/// The interrupt pin of the device in the slot at `addr`, when the slot
/// shows `magic`: `None` when no device is there.
pub fn device_pin(addr: usize, magic: u32) -> (r: Option<usize>)
    requires
        VIRTIO_START_ADDR <= addr <= VIRTIO_END_ADDR,
    ensures
        r == if magic == VIRTIO_VAL {
            Some(((addr - VIRTIO_START_ADDR) / (VIRTIO_STEP_SIZE as int) + 1) as usize)
        } else {
            None
        },
{
    if magic == VIRTIO_VAL {
        Some((addr - VIRTIO_START_ADDR) / VIRTIO_STEP_SIZE + 1)
    } else {
        None
    }
}

/// Which device each interrupt pin belongs to: its kind and its place
/// among the devices of that kind.
pub struct DeviceTable {
    pub dtype: [(DeviceKind, usize); 9],
}

impl DeviceTable {
    /// No device on any pin.
    pub fn new() -> (r: Self)
        ensures
            forall|i: int| 0 <= i < 9 ==> #[trigger] r.dtype@[i] == (DeviceKind::Unknown, 0usize),
    {
        DeviceTable { dtype: [(DeviceKind::Unknown, 0usize); 9] }
    }

    /// Records a device of kind `kind` on pin `pin_idx`, the next of its
    /// kind after `count` of them, so that the interrupts of that pin
    /// reach it; another kind is not recorded.
    pub fn add_device(&mut self, pin_idx: usize, kind: DeviceKind, count: usize)
        requires
            pin_idx < 9,
        ensures
            final(self).dtype@ == match kind {
                DeviceKind::Block => old(self).dtype@.update(pin_idx as int, (DeviceKind::Block, count)),
                DeviceKind::Gpu => old(self).dtype@.update(pin_idx as int, (DeviceKind::Gpu, count)),
                DeviceKind::Input => old(self).dtype@.update(pin_idx as int, (DeviceKind::Input, count)),
                DeviceKind::Unknown => old(self).dtype@,
            },
    {
        match kind {
            DeviceKind::Block => {
                self.dtype[pin_idx] = (DeviceKind::Block, count);
            },
            DeviceKind::Gpu => {
                self.dtype[pin_idx] = (DeviceKind::Gpu, count);
            },
            DeviceKind::Input => {
                self.dtype[pin_idx] = (DeviceKind::Input, count);
            },
            DeviceKind::Unknown => {},
        }
        proof {
            if kind == DeviceKind::Unknown {
                assert(self.dtype@ =~= old(self).dtype@);
            }
        }
    }

    /// The device on pin `pin_idx`: its kind and its place.
    pub fn device_of(&self, pin_idx: usize) -> (r: (DeviceKind, usize))
        requires
            pin_idx < 9,
        ensures
            r == self.dtype@[pin_idx as int],
    {
        self.dtype[pin_idx]
    }
}

} // verus!
