//! Keyboard and mouse input: the parser state that the terminal's byte stream is decoded
//! into (characters typed, keys pressed, modifiers held, the mouse event), and the rules
//! that turn control bytes and escape sequences into those events.
use vstd::prelude::*;

verus! {

/// A modifier key.
#[derive(Debug, Clone, Copy, PartialEq, Eq, Structural, Hash)]
pub enum KeyModifiers {
    Shift,
    Command,
    Option,
    Control,
}

impl Default for KeyModifiers {
    fn default() -> (m: KeyModifiers)
        ensures
            m == KeyModifiers::Command,
    {
        KeyModifiers::Command
    }
}

/// A key that types no character.
#[derive(Debug, Clone, Copy, PartialEq, Eq, Structural, Hash)]
pub enum KeyCode {
    Delete,
    Tab,
    Left,
    Right,
    Up,
    Down,
    Return,
    Escape,
}

/// Which button (or scroll direction) a mouse event is about.
#[derive(Debug, Clone, Copy, PartialEq, Eq, Structural, Hash)]
pub enum MouseEventType {
    Null,
    Left,
    Right,
    Middle,
    Down,
    Up,
}

impl Default for MouseEventType {
    fn default() -> (t: MouseEventType)
        ensures
            t == MouseEventType::Null,
    {
        MouseEventType::Null
    }
}

/// Where a mouse button is in its press cycle.
#[derive(Debug, Clone, Copy, PartialEq, Eq, Structural, Hash)]
pub enum MouseState {
    Release,
    Press,
    Hold,
    Null,
}

impl Default for MouseState {
    fn default() -> (s: MouseState)
        ensures
            s == MouseState::Null,
    {
        MouseState::Null
    }
}

/// The latest mouse event: its button, the cell it happened at, and its state.
#[derive(Debug, Clone, Copy, PartialEq, Eq)]
pub struct MouseEvent {
    pub eventType: MouseEventType,
    pub position: (u16, u16),
    pub state: MouseState,
}

impl Default for MouseEvent {
    fn default() -> (e: MouseEvent)
        ensures
            e.eventType == MouseEventType::Null,
            e.position == (0u16, 0u16),
            e.state == MouseState::Null,
    {
        MouseEvent { eventType: MouseEventType::Null, position: (0, 0), state: MouseState::Null }
    }
}

/// What one input sequence stands for: a key (if any), up to two modifiers held (in the
/// order they are recorded), and a character (if any).
#[derive(Debug, Clone, Copy, PartialEq, Eq, Structural)]
pub struct KeyAction {
    pub key: Option<KeyCode>,
    pub first: Option<KeyModifiers>,
    pub second: Option<KeyModifiers>,
    pub chr: Option<char>,
}

pub open spec fn act(
    key: Option<KeyCode>,
    first: Option<KeyModifiers>,
    second: Option<KeyModifiers>,
    chr: Option<char>,
) -> KeyAction {
    KeyAction { key, first, second, chr }
}

/// The action that stands for nothing.
pub open spec fn no_action() -> KeyAction {
    act(None, None, None, None)
}

pub open spec fn opt_seq<A>(o: Option<A>) -> Seq<A> {
    match o {
        Some(x) => seq![x],
        None => Seq::empty(),
    }
}

/// The pressed keys once `key` (if any) is pressed too: each key is recorded once.
pub open spec fn pressed(keys: Seq<KeyCode>, key: Option<KeyCode>) -> Seq<KeyCode> {
    match key {
        None => keys,
        Some(k) => if keys.contains(k) {
            keys
        } else {
            keys.push(k)
        },
    }
}

/// The input state gathered since the last frame.
#[derive(Debug)]
pub struct KeyParser {
    pub keyModifiers: Vec<KeyModifiers>,
    /// The keys pressed, each once.
    pub keyEvents: Vec<KeyCode>,
    pub charEvents: Vec<char>,
    pub inEscapeSeq: bool,
    pub bytes: usize,
    pub mouseEvent: Option<MouseEvent>,
    pub mouseModifiers: Vec<KeyModifiers>,
    /// When a key was last pressed, in milliseconds since the epoch.
    pub lastPress: u128,
}

/// The sequence that custom escape code `3;n~` stands for (see the terminal setup in the
/// documentation): deletions, jumps and selections by word or line, and the command
/// shortcuts.
pub open spec fn custom_action(n: u16) -> KeyAction {
    let shift = Some(KeyModifiers::Shift);
    let option = Some(KeyModifiers::Option);
    let command = Some(KeyModifiers::Command);
    if n == 2 {
        act(Some(KeyCode::Delete), shift, None, None)
    } else if n == 3 {
        act(Some(KeyCode::Delete), option, None, None)
    } else if n == 4 {
        act(Some(KeyCode::Left), command, None, None)
    } else if n == 5 {
        act(Some(KeyCode::Right), command, None, None)
    } else if n == 6 {
        act(Some(KeyCode::Up), command, None, None)
    } else if n == 7 {
        act(Some(KeyCode::Down), command, None, None)
    } else if n == 8 {
        act(Some(KeyCode::Delete), option, shift, None)
    } else if n == 9 {
        act(Some(KeyCode::Delete), command, None, None)
    } else if n == 10 {
        act(Some(KeyCode::Delete), command, shift, None)
    } else if n == 11 {
        act(None, command, None, Some('s'))
    } else if n == 12 {
        act(Some(KeyCode::Left), command, shift, None)
    } else if n == 13 {
        act(Some(KeyCode::Right), command, shift, None)
    } else if n == 14 {
        act(Some(KeyCode::Up), command, shift, None)
    } else if n == 15 {
        act(Some(KeyCode::Down), command, shift, None)
    } else if n == 16 {
        act(None, command, None, Some('c'))
    } else if n == 17 {
        act(None, command, None, Some('v'))
    } else if n == 18 {
        act(None, command, None, Some('x'))
    } else if n == 19 {
        act(None, command, None, Some('f'))
    } else if n == 20 {
        act(None, command, None, Some('z'))
    } else if n == 21 {
        act(None, command, shift, Some('z'))
    } else if n == 22 {
        act(Some(KeyCode::Tab), option, None, None)
    } else {
        no_action()
    }
}

fn custom_action_of(n: u16) -> (a: KeyAction)
    ensures
        a == custom_action(n),
{
    let shift = Some(KeyModifiers::Shift);
    let option = Some(KeyModifiers::Option);
    let command = Some(KeyModifiers::Command);
    let (key, first, second, chr) = match n {
        2 => (Some(KeyCode::Delete), shift, None, None),
        3 => (Some(KeyCode::Delete), option, None, None),
        4 => (Some(KeyCode::Left), command, None, None),
        5 => (Some(KeyCode::Right), command, None, None),
        6 => (Some(KeyCode::Up), command, None, None),
        7 => (Some(KeyCode::Down), command, None, None),
        8 => (Some(KeyCode::Delete), option, shift, None),
        9 => (Some(KeyCode::Delete), command, None, None),
        10 => (Some(KeyCode::Delete), command, shift, None),
        11 => (None, command, None, Some('s')),
        12 => (Some(KeyCode::Left), command, shift, None),
        13 => (Some(KeyCode::Right), command, shift, None),
        14 => (Some(KeyCode::Up), command, shift, None),
        15 => (Some(KeyCode::Down), command, shift, None),
        16 => (None, command, None, Some('c')),
        17 => (None, command, None, Some('v')),
        18 => (None, command, None, Some('x')),
        19 => (None, command, None, Some('f')),
        20 => (None, command, None, Some('z')),
        21 => (None, command, shift, Some('z')),
        22 => (Some(KeyCode::Tab), option, None, None),
        _ => (None, None, None, None),
    };
    KeyAction { key, first, second, chr }
}

/// The arrow that a final character `A`-`D` names.
pub open spec fn arrow_key(c: u32) -> Option<KeyCode> {
    if c == 0x44 {
        Some(KeyCode::Left)
    } else if c == 0x43 {
        Some(KeyCode::Right)
    } else if c == 0x41 {
        Some(KeyCode::Up)
    } else if c == 0x42 {
        Some(KeyCode::Down)
    } else {
        None
    }
}

/// Control with an arrow (`1;5` and the arrow's letter).
pub open spec fn control_arrow_action(c: char) -> KeyAction {
    match arrow_key(c as u32) {
        Some(k) => act(Some(k), Some(KeyModifiers::Control), None, None),
        None => no_action(),
    }
}

/// The low byte of a character's code, as the terminal's one-byte codes are compared.
pub open spec fn low_byte(c: char) -> u32 {
    (c as u32) % 256
}

/// The one-parameter sequences: shift with tab (`Z`), and the arrows (`A`-`D`) with option
/// (`1;3`), shift (`1;2`) or both (`1;4`).
pub open spec fn standard_action(numbers: Seq<u16>, c: char) -> KeyAction {
    let b = low_byte(c);
    if b == 0x5A {
        act(Some(KeyCode::Tab), Some(KeyModifiers::Shift), None, None)
    } else {
        match arrow_key(b) {
            None => no_action(),
            Some(k) => if numbers == seq![1u16, 3u16] {
                act(Some(k), Some(KeyModifiers::Option), None, None)
            } else if numbers == seq![1u16, 2u16] {
                act(Some(k), Some(KeyModifiers::Shift), None, None)
            } else if numbers == seq![1u16, 4u16] {
                act(Some(k), Some(KeyModifiers::Option), Some(KeyModifiers::Shift), None)
            } else {
                act(Some(k), None, None, None)
            },
        }
    }
}

/// A control byte: return, tab, control with a letter (as the terminal sends them), and
/// control with delete.
pub open spec fn execute_action(byte: u8) -> KeyAction {
    let control = Some(KeyModifiers::Control);
    if byte == 0x0D {
        act(Some(KeyCode::Return), None, None, None)
    } else if byte == 0x09 {
        act(Some(KeyCode::Tab), None, None, None)
    } else if byte == 3 {
        act(None, control, None, Some('c'))
    } else if byte == 22 {
        act(None, control, None, Some('v'))
    } else if byte == 26 {
        act(None, control, None, Some('z'))
    } else if byte == 6 {
        act(None, control, None, Some('f'))
    } else if byte == 1 {
        act(None, control, None, Some('a'))
    } else if byte == 24 {
        act(None, control, None, Some('x'))
    } else if byte == 19 {
        act(None, control, None, Some('s'))
    } else if byte == 21 {
        act(None, control, None, Some('u'))
    } else if byte == 18 {
        act(None, control, None, Some('r'))
    } else if byte == 0x08 {
        act(Some(KeyCode::Delete), control, None, None)
    } else if byte == 10 {
        act(None, control, None, Some('a'))
    } else {
        no_action()
    }
}

/// A control byte `b` from 1 to 26 stands for control held with the `b`-th letter of the
/// alphabet (`0x60 + b`): whenever `Execute(b)` reads such a byte as a character, the
/// character is that letter and control is added. The exceptions are the bytes that are
/// keys (backspace 8, tab 9, return 13) and line feed (10), which is read as control with
/// `a`. The letters read are a, c, f, r, s, u, v, x and z.
pub proof fn law_control_letters(before: KeyParser, after: KeyParser, b: u8)
    requires
        1 <= b <= 26,
        after.applied(before, execute_action(b)),
    ensures
        b != 8 && b != 9 && b != 10 && b != 13 && after.charEvents@.len() > before.charEvents@.len() ==> {
            &&& after.charEvents@.len() == before.charEvents@.len() + 1
            &&& after.charEvents@.last() as u32 == 0x60 + b
            &&& after.keyModifiers@ == before.keyModifiers@.push(KeyModifiers::Control)
        },
        b == 10 ==> after.charEvents@ == before.charEvents@.push('a') && after.keyModifiers@
            == before.keyModifiers@.push(KeyModifiers::Control),
        (b == 1 || b == 3 || b == 6 || b == 18 || b == 19 || b == 21 || b == 22 || b == 24 || b == 26)
            ==> after.charEvents@.len() == before.charEvents@.len() + 1,
{
    let a = execute_action(b);
    assert(opt_seq(Some(KeyModifiers::Control)) =~= seq![KeyModifiers::Control]);
    assert(opt_seq(None::<KeyModifiers>) =~= Seq::<KeyModifiers>::empty());
    assert(after.keyModifiers@ =~= before.keyModifiers@ + opt_seq(a.first) + opt_seq(a.second));
    if a.chr is Some {
        assert(opt_seq(a.chr) =~= seq![a.chr.unwrap()]);
        assert(after.charEvents@ =~= before.charEvents@.push(a.chr.unwrap()));
    } else {
        assert(opt_seq(a.chr) =~= Seq::<char>::empty());
        assert(after.charEvents@ =~= before.charEvents@);
    }
    if a.first is Some {
        assert(after.keyModifiers@ =~= before.keyModifiers@.push(a.first.unwrap()));
    }
}

fn execute_action_of(byte: u8) -> (a: KeyAction)
    ensures
        a == execute_action(byte),
{
    let control = Some(KeyModifiers::Control);
    let (key, first, chr) = match byte {
        0x0D => (Some(KeyCode::Return), None, None),
        0x09 => (Some(KeyCode::Tab), None, None),
        3 => (None, control, Some('c')),
        22 => (None, control, Some('v')),
        26 => (None, control, Some('z')),
        6 => (None, control, Some('f')),
        1 => (None, control, Some('a')),
        24 => (None, control, Some('x')),
        19 => (None, control, Some('s')),
        21 => (None, control, Some('u')),
        18 => (None, control, Some('r')),
        0x08 => (Some(KeyCode::Delete), control, None),
        10 => (None, control, Some('a')),
        _ => (None, None, None),
    };
    KeyAction { key, first, second: None, chr }
}

fn arrow_key_of(c: u32) -> (k: Option<KeyCode>)
    ensures
        k == arrow_key(c),
{
    if c == 0x44 {
        Some(KeyCode::Left)
    } else if c == 0x43 {
        Some(KeyCode::Right)
    } else if c == 0x41 {
        Some(KeyCode::Up)
    } else if c == 0x42 {
        Some(KeyCode::Down)
    } else {
        None
    }
}

/// Whether a character is printable ASCII other than space (`!` through `~`).
pub open spec fn ascii_graphic(c: char) -> bool {
    0x21 <= (c as u32) <= 0x7E
}

/// Whether a character has Unicode's `White_Space` property (the characters that
/// `char::is_whitespace` accepts): tab through carriage return, space, next line, no-break
/// space, the Ogham space mark, the spaces U+2000 to U+200A, the line and paragraph
/// separators, the narrow no-break space, the medium mathematical space and the
/// ideographic space.
pub open spec fn char_is_whitespace(c: char) -> bool {
    let v = c as u32;
    ||| 0x09 <= v <= 0x0D
    ||| v == 0x20
    ||| v == 0x85
    ||| v == 0xA0
    ||| v == 0x1680
    ||| 0x2000 <= v <= 0x200A
    ||| v == 0x2028
    ||| v == 0x2029
    ||| v == 0x202F
    ||| v == 0x205F
    ||| v == 0x3000
}

/// Whether a character has the `White_Space` property (see `char_is_whitespace`).
fn is_whitespace(c: char) -> (b: bool)
    ensures
        b == char_is_whitespace(c),
{
    let v = c as u32;
    (0x09 <= v && v <= 0x0D) || v == 0x20 || v == 0x85 || v == 0xA0 || v == 0x1680 || (0x2000 <= v && v <= 0x200A)
        || v == 0x2028 || v == 0x2029 || v == 0x202F || v == 0x205F || v == 0x3000
}

/// A printed character: inside an escape sequence only the byte 17 counts (option with
/// `w`); otherwise delete (0x7F) is a key, and printable or whitespace characters are
/// typed.
pub open spec fn print_action(inSequence: bool, c: char) -> KeyAction {
    if inSequence {
        if low_byte(c) == 17 {
            act(None, Some(KeyModifiers::Option), None, Some('w'))
        } else {
            no_action()
        }
    } else if low_byte(c) == 0x7F {
        act(Some(KeyCode::Delete), None, None, None)
    } else if ascii_graphic(c) || char_is_whitespace(c) {
        act(None, None, None, Some(c))
    } else {
        no_action()
    }
}

/// Whether bit `b` (a power of two) is set in `n`.
pub open spec fn bit_set(n: u16, b: u16) -> bool {
    (n / b) % 2 == 1
}

/// The key modifiers a mouse report's first number carries: shift (bit 32), option (bit
/// 64), control (bit 128).
pub open spec fn mouse_key_modifiers(byte: u16) -> Seq<KeyModifiers> {
    opt_seq(if bit_set(byte, 32) { Some(KeyModifiers::Shift) } else { None }) + opt_seq(
        if bit_set(byte, 64) {
            Some(KeyModifiers::Option)
        } else {
            None
        },
    ) + opt_seq(if bit_set(byte, 128) { Some(KeyModifiers::Control) } else { None })
}

/// The button a mouse report names: its low two bits give the button, and bit 64 marks
/// a scroll (button 0 up, 1 down).
pub open spec fn mouse_event_type(byte: u16) -> MouseEventType {
    let button = byte % 4;
    if bit_set(byte, 64) {
        if button == 0 {
            MouseEventType::Up
        } else if button == 1 {
            MouseEventType::Down
        } else {
            MouseEventType::Null
        }
    } else {
        if button == 0 {
            MouseEventType::Left
        } else if button == 1 {
            MouseEventType::Middle
        } else if button == 2 {
            MouseEventType::Right
        } else {
            MouseEventType::Null
        }
    }
}

/// The scroll a mouse report stands for: -1 up, 1 down.
pub open spec fn scroll_of(byte: u16) -> Option<i8> {
    if bit_set(byte, 64) && byte % 4 == 0 {
        Some(-1i8)
    } else if bit_set(byte, 64) && byte % 4 == 1 {
        Some(1i8)
    } else {
        None
    }
}

/// The mouse event after a report of `t` at `pos` ending in `c`: a drag (a left report,
/// ending in `M`, at a new cell while the button is held) moves the held event; anything
/// else starts a new event, pressed on `M` and released on `m`.
pub open spec fn next_mouse_event(current: Option<MouseEvent>, t: MouseEventType, pos: (u16, u16), c: char) -> Option<
    MouseEvent,
> {
    if current is Some && t == MouseEventType::Left && current->0.position != pos && current->0.state
        == MouseState::Hold && c == 'M' {
        Some(MouseEvent { eventType: current->0.eventType, position: pos, state: current->0.state })
    } else {
        Some(
            MouseEvent {
                eventType: t,
                position: pos,
                state: if c == 'M' {
                    MouseState::Press
                } else if c == 'm' {
                    MouseState::Release
                } else {
                    MouseState::Null
                },
            },
        )
    }
}

/// The mouse event one frame later: a press becomes a hold, a held scroll is released, a
/// release is cleared.
pub open spec fn advance_mouse(m: Option<MouseEvent>) -> Option<MouseEvent> {
    match m {
        None => None,
        Some(e) => Some(
            if e.state == MouseState::Press {
                MouseEvent { eventType: e.eventType, position: e.position, state: MouseState::Hold }
            } else if e.state == MouseState::Hold && (e.eventType == MouseEventType::Down || e.eventType
                == MouseEventType::Up) {
                MouseEvent { eventType: e.eventType, position: e.position, state: MouseState::Release }
            } else if e.state == MouseState::Release {
                MouseEvent { eventType: MouseEventType::Null, position: e.position, state: MouseState::Null }
            } else {
                e
            },
        ),
    }
}

impl KeyParser {
    /// Each pressed key is recorded once.
    pub open spec fn wf(&self) -> bool {
        self.keyEvents@.no_duplicates()
    }

    /// `self` is `before` with the action's key pressed and its modifiers and character
    /// recorded; the escape state and the press time are spoken of separately.
    pub open spec fn applied(&self, before: KeyParser, a: KeyAction) -> bool {
        &&& self.keyEvents@ == pressed(before.keyEvents@, a.key)
        &&& self.keyModifiers@ == before.keyModifiers@ + opt_seq(a.first) + opt_seq(a.second)
        &&& self.charEvents@ == before.charEvents@ + opt_seq(a.chr)
        &&& self.bytes == before.bytes
        &&& self.mouseEvent == before.mouseEvent
        &&& self.mouseModifiers@ == before.mouseModifiers@
    }

    /// `self` is `before` after a mouse report with the numbers `numbers` ending in `c`
    /// (reports with fewer than three numbers are ignored).
    pub open spec fn mouse_handled(&self, before: KeyParser, numbers: Seq<u16>, c: char) -> bool {
        &&& self.keyEvents@ == before.keyEvents@
        &&& self.charEvents@ == before.charEvents@
        &&& self.bytes == before.bytes
        &&& if numbers.len() < 3 {
            &&& self.keyModifiers@ == before.keyModifiers@
            &&& self.mouseModifiers@ == before.mouseModifiers@
            &&& self.mouseEvent == before.mouseEvent
        } else {
            let t = mouse_event_type(numbers[0]);
            &&& self.keyModifiers@ == before.keyModifiers@ + mouse_key_modifiers(numbers[0])
            &&& self.mouseModifiers@ == before.mouseModifiers@ + opt_seq(
                if t == MouseEventType::Left && numbers[0] == 4 {
                    Some(KeyModifiers::Shift)
                } else {
                    None
                },
            )
            &&& self.mouseEvent == next_mouse_event(before.mouseEvent, t, (numbers[1], numbers[2]), c)
        }
    }

    /// A parser with no events.
    pub fn new() -> (p: KeyParser)
        ensures
            p.wf(),
            p.keyModifiers@.len() == 0,
            p.keyEvents@.len() == 0,
            p.charEvents@.len() == 0,
            !p.inEscapeSeq,
            p.bytes == 0,
            p.mouseEvent is None,
            p.mouseModifiers@.len() == 0,
            p.lastPress == 0,
    {
        KeyParser {
            keyModifiers: Vec::new(),
            keyEvents: Vec::new(),
            charEvents: Vec::new(),
            inEscapeSeq: false,
            bytes: 0,
            mouseEvent: None,
            mouseModifiers: Vec::new(),
            lastPress: 0,
        }
    }

    fn press(&mut self, key: KeyCode)
        requires
            old(self).wf(),
        ensures
            final(self).wf(),
            final(self).keyEvents@ == pressed(old(self).keyEvents@, Some(key)),
            final(self).keyModifiers == old(self).keyModifiers,
            final(self).charEvents == old(self).charEvents,
            final(self).inEscapeSeq == old(self).inEscapeSeq,
            final(self).bytes == old(self).bytes,
            final(self).mouseEvent == old(self).mouseEvent,
            final(self).mouseModifiers == old(self).mouseModifiers,
            final(self).lastPress == old(self).lastPress,
    {
        if !self.ContainsKeyCode(key) {
            self.keyEvents.push(key);
        }
    }

    /// Records an action (see `applied`).
    fn apply(&mut self, a: KeyAction)
        requires
            old(self).wf(),
        ensures
            final(self).wf(),
            final(self).applied(*old(self), a),
            final(self).inEscapeSeq == old(self).inEscapeSeq,
            final(self).lastPress == old(self).lastPress,
    {
        if let Some(k) = a.key {
            self.press(k);
        }
        let ghost mods = self.keyModifiers@;
        if let Some(m) = a.first {
            self.keyModifiers.push(m);
        }
        if let Some(m) = a.second {
            self.keyModifiers.push(m);
        }
        if let Some(c) = a.chr {
            self.charEvents.push(c);
        }
        proof {
            assert(self.keyModifiers@ =~= old(self).keyModifiers@ + opt_seq(a.first) + opt_seq(a.second));
            assert(self.charEvents@ =~= old(self).charEvents@ + opt_seq(a.chr));
        }
    }

    /// Ends a frame: the typed characters, keys and modifiers are cleared, the escape state
    /// is reset, and the mouse event moves on one step (see `advance_mouse`).
    pub fn ClearEvents(&mut self)
        ensures
            final(self).wf(),
            final(self).charEvents@.len() == 0,
            final(self).keyModifiers@.len() == 0,
            final(self).mouseModifiers@.len() == 0,
            final(self).keyEvents@.len() == 0,
            !final(self).inEscapeSeq,
            final(self).mouseEvent == advance_mouse(old(self).mouseEvent),
            final(self).bytes == old(self).bytes,
            final(self).lastPress == old(self).lastPress,
    {
        self.charEvents.clear();
        self.keyModifiers.clear();
        self.mouseModifiers.clear();
        self.keyEvents.clear();
        self.inEscapeSeq = false;
        if let Some(event) = self.mouseEvent {
            let next = match event.state {
                MouseState::Press => MouseEvent {
                    eventType: event.eventType,
                    position: event.position,
                    state: MouseState::Hold,
                },
                MouseState::Hold => {
                    if event.eventType == MouseEventType::Down || event.eventType == MouseEventType::Up {
                        MouseEvent { eventType: event.eventType, position: event.position, state: MouseState::Release }
                    } else {
                        event
                    }
                },
                MouseState::Release => MouseEvent {
                    eventType: MouseEventType::Null,
                    position: event.position,
                    state: MouseState::Null,
                },
                MouseState::Null => event,
            };
            self.mouseEvent = Some(next);
        }
    }

    /// Whether the character was typed.
    pub fn ContainsChar(&self, chr: char) -> (b: bool)
        ensures
            b == self.charEvents@.contains(chr),
    {
        let mut k: usize = 0;
        while k < self.charEvents.len()
            invariant
                k <= self.charEvents@.len(),
                forall|w: int| 0 <= w < k ==> self.charEvents@[w] != chr,
            decreases self.charEvents@.len() - k,
        {
            if self.charEvents[k] == chr {
                return true;
            }
            k = k + 1;
        }
        false
    }

    /// Whether the modifier is held with a key.
    pub fn ContainsModifier(&self, modifier: &KeyModifiers) -> (b: bool)
        ensures
            b == self.keyModifiers@.contains(*modifier),
    {
        contains_modifier(&self.keyModifiers, *modifier)
    }

    /// Whether the modifier is held with the mouse.
    pub fn ContainsMouseModifier(&self, modifier: KeyModifiers) -> (b: bool)
        ensures
            b == self.mouseModifiers@.contains(modifier),
    {
        contains_modifier(&self.mouseModifiers, modifier)
    }

    /// Whether the key was pressed.
    pub fn ContainsKeyCode(&self, key: KeyCode) -> (b: bool)
        ensures
            b == self.keyEvents@.contains(key),
    {
        let mut k: usize = 0;
        while k < self.keyEvents.len()
            invariant
                k <= self.keyEvents@.len(),
                forall|w: int| 0 <= w < k ==> self.keyEvents@[w] != key,
            decreases self.keyEvents@.len() - k,
        {
            if self.keyEvents[k] == key {
                return true;
            }
            k = k + 1;
        }
        false
    }

    /// Records the time of a key press.
    pub fn SetPressTime(&mut self, now: u128)
        ensures
            final(self).lastPress == now,
            final(self).keyModifiers == old(self).keyModifiers,
            final(self).keyEvents == old(self).keyEvents,
            final(self).charEvents == old(self).charEvents,
            final(self).inEscapeSeq == old(self).inEscapeSeq,
            final(self).bytes == old(self).bytes,
            final(self).mouseEvent == old(self).mouseEvent,
            final(self).mouseModifiers == old(self).mouseModifiers,
    {
        self.lastPress = now;
    }

    /// Decodes a mouse report (`button;x;y` ending in `M` for a press, `m` for a release):
    /// the modifiers it carries, the shift that a plain left click with 4 marks, and the new
    /// mouse event. Returns the scroll it stands for, if any.
    pub fn HandleMouseEscapeCodes(&mut self, numbers: &[u16], c: char) -> (scroll: Option<i8>)
        requires
            old(self).wf(),
        ensures
            final(self).wf(),
            final(self).mouse_handled(*old(self), numbers@, c),
            final(self).inEscapeSeq == old(self).inEscapeSeq,
            final(self).lastPress == old(self).lastPress,
            scroll == if numbers@.len() < 3 {
                None
            } else {
                scroll_of(numbers@[0])
            },
    {
        if numbers.len() < 3 {
            return None;
        }
        let byte = numbers[0];
        let x = numbers[1];
        let y = numbers[2];
        let button = byte & 3;
        proof {
            assert(byte & 3 == byte % 4) by (bit_vector);
            assert((byte & 32 != 0) == ((byte / 32) % 2 == 1)) by (bit_vector);
            assert((byte & 64 != 0) == ((byte / 64) % 2 == 1)) by (bit_vector);
            assert((byte & 128 != 0) == ((byte / 128) % 2 == 1)) by (bit_vector);
        }
        let ghost mods = self.keyModifiers@;
        if (byte & 32) != 0 {
            self.keyModifiers.push(KeyModifiers::Shift);
        }
        if (byte & 64) != 0 {
            self.keyModifiers.push(KeyModifiers::Option);
        }
        if (byte & 128) != 0 {
            self.keyModifiers.push(KeyModifiers::Control);
        }
        proof {
            assert(self.keyModifiers@ =~= mods + mouse_key_modifiers(byte));
        }
        let isScroll = (byte & 64) != 0;
        let mut scroll: Option<i8> = None;
        let eventType = if isScroll {
            if button == 0 {
                scroll = Some(-1i8);
                MouseEventType::Up
            } else if button == 1 {
                scroll = Some(1i8);
                MouseEventType::Down
            } else {
                MouseEventType::Null
            }
        } else {
            if button == 0 {
                MouseEventType::Left
            } else if button == 1 {
                MouseEventType::Middle
            } else if button == 2 {
                MouseEventType::Right
            } else {
                MouseEventType::Null
            }
        };
        let ghost mmods = self.mouseModifiers@;
        if eventType == MouseEventType::Left && byte == 4 {
            self.mouseModifiers.push(KeyModifiers::Shift);
        }
        proof {
            assert(self.mouseModifiers@ =~= mmods + opt_seq(
                if eventType == MouseEventType::Left && byte == 4 {
                    Some(KeyModifiers::Shift)
                } else {
                    None
                },
            ));
        }
        self.CalculateMouseEventCode(eventType, (x, y), c);
        scroll
    }

    /// Updates the mouse event for a report (see `next_mouse_event`).
    pub fn CalculateMouseEventCode(&mut self, eventType: MouseEventType, position: (u16, u16), c: char)
        ensures
            final(self).mouseEvent == next_mouse_event(old(self).mouseEvent, eventType, position, c),
            final(self).keyModifiers == old(self).keyModifiers,
            final(self).keyEvents == old(self).keyEvents,
            final(self).charEvents == old(self).charEvents,
            final(self).inEscapeSeq == old(self).inEscapeSeq,
            final(self).bytes == old(self).bytes,
            final(self).mouseModifiers == old(self).mouseModifiers,
            final(self).lastPress == old(self).lastPress,
    {
        if let Some(event) = self.mouseEvent {
            if eventType == MouseEventType::Left && (event.position.0 != position.0 || event.position.1 != position.1) && event.state == MouseState::Hold
                && c == 'M' {
                self.mouseEvent = Some(MouseEvent { eventType: event.eventType, position, state: event.state });
                return;
            }
        }
        let state = if c == 'M' {
            MouseState::Press
        } else if c == 'm' {
            MouseState::Release
        } else {
            MouseState::Null
        };
        self.mouseEvent = Some(MouseEvent { eventType, position, state });
    }

    /// Decodes a custom escape code `3;n~` (see `custom_action`).
    pub fn HandleCustomEscapeCodes(&mut self, numbers: &[u16])
        requires
            old(self).wf(),
            numbers@.len() >= 2,
        ensures
            final(self).wf(),
            final(self).applied(*old(self), custom_action(numbers@[1])),
            final(self).inEscapeSeq == old(self).inEscapeSeq,
            final(self).lastPress == old(self).lastPress,
    {
        let a = custom_action_of(numbers[1]);
        self.apply(a);
    }

    /// Decodes control with an arrow (see `control_arrow_action`).
    pub fn HandleControlArrows(&mut self, _numbers: &[u16], c: char)
        requires
            old(self).wf(),
        ensures
            final(self).wf(),
            final(self).applied(*old(self), control_arrow_action(c)),
            final(self).inEscapeSeq == old(self).inEscapeSeq,
            final(self).lastPress == old(self).lastPress,
    {
        let a = match arrow_key_of(c as u32) {
            Some(k) => KeyAction { key: Some(k), first: Some(KeyModifiers::Control), second: None, chr: None },
            None => KeyAction { key: None, first: None, second: None, chr: None },
        };
        self.apply(a);
    }

    /// Decodes the one-parameter sequences (see `standard_action`).
    pub fn HandleStandardEscapeCodes(&mut self, numbers: &Vec<u16>, c: char)
        requires
            old(self).wf(),
        ensures
            final(self).wf(),
            final(self).applied(*old(self), standard_action(numbers@, c)),
            final(self).inEscapeSeq == old(self).inEscapeSeq,
            final(self).lastPress == old(self).lastPress,
    {
        let b: u32 = (c as u32) % 256;
        let a = if b == 0x5A {
            KeyAction { key: Some(KeyCode::Tab), first: Some(KeyModifiers::Shift), second: None, chr: None }
        } else {
            match arrow_key_of(b) {
                None => KeyAction { key: None, first: None, second: None, chr: None },
                Some(k) => {
                    let two = numbers.len() == 2 && numbers[0] == 1;
                    proof {
                        if numbers@.len() == 2 {
                            assert(numbers@ =~= seq![numbers@[0], numbers@[1]]);
                        }
                    }
                    if two && numbers[1] == 3 {
                        KeyAction { key: Some(k), first: Some(KeyModifiers::Option), second: None, chr: None }
                    } else if two && numbers[1] == 2 {
                        KeyAction { key: Some(k), first: Some(KeyModifiers::Shift), second: None, chr: None }
                    } else if two && numbers[1] == 4 {
                        KeyAction {
                            key: Some(k),
                            first: Some(KeyModifiers::Option),
                            second: Some(KeyModifiers::Shift),
                            chr: None,
                        }
                    } else {
                        KeyAction { key: Some(k), first: None, second: None, chr: None }
                    }
                },
            }
        };
        self.apply(a);
    }

    /// A printed character (see `print_action`); outside an escape sequence it counts as a
    /// key press at `now`.
    pub fn Print(&mut self, chr: char, now: u128)
        requires
            old(self).wf(),
        ensures
            final(self).wf(),
            final(self).applied(*old(self), print_action(old(self).inEscapeSeq || old(self).bytes > 1, chr)),
            final(self).inEscapeSeq == old(self).inEscapeSeq,
            final(self).lastPress == if old(self).inEscapeSeq || old(self).bytes > 1 {
                old(self).lastPress
            } else {
                now
            },
    {
        let low: u32 = (chr as u32) % 256;
        if self.inEscapeSeq || self.bytes > 1 {
            if low == 17 {
                self.apply(KeyAction { key: None, first: Some(KeyModifiers::Option), second: None, chr: Some('w') });
            } else {
                self.apply(KeyAction { key: None, first: None, second: None, chr: None });
            }
            return;
        }
        self.SetPressTime(now);
        let code: u32 = chr as u32;
        let a = if low == 0x7F {
            KeyAction { key: Some(KeyCode::Delete), first: None, second: None, chr: None }
        } else if (0x21 <= code && code <= 0x7E) || is_whitespace(chr) {
            KeyAction { key: None, first: None, second: None, chr: Some(chr) }
        } else {
            KeyAction { key: None, first: None, second: None, chr: None }
        };
        self.apply(a);
    }

    /// A control byte at `now`: escape starts a sequence; the others are decoded by
    /// `execute_action`.
    pub fn Execute(&mut self, byte: u8, now: u128)
        requires
            old(self).wf(),
        ensures
            final(self).wf(),
            final(self).applied(*old(self), execute_action(byte)),
            final(self).inEscapeSeq == (byte == 0x1B || old(self).inEscapeSeq),
            final(self).lastPress == now,
    {
        self.SetPressTime(now);
        if byte == 0x1B {
            self.inEscapeSeq = true;
        }
        let a = execute_action_of(byte);
        self.apply(a);
    }

    /// A finished escape sequence with its numbers and final character, at `now`: mouse
    /// reports (`M`, `m`), custom codes (`3;n~`), control with an arrow (`1;5`), and the
    /// rest. Returns the scroll a mouse report stands for, if any.
    pub fn CsiDispatch(&mut self, numbers: &Vec<u16>, c: char, now: u128) -> (scroll: Option<i8>)
        requires
            old(self).wf(),
        ensures
            final(self).wf(),
            !final(self).inEscapeSeq,
            final(self).lastPress == now,
            c == 'M' || c == 'm' ==> final(self).mouse_handled(*old(self), numbers@, c) && scroll == if numbers@.len()
                < 3 {
                None
            } else {
                scroll_of(numbers@[0])
            },
            !(c == 'M' || c == 'm') ==> scroll is None && final(self).applied(
                *old(self),
                if c == '~' && numbers@.len() == 2 && numbers@[0] == 3 {
                    custom_action(numbers@[1])
                } else if numbers@.len() == 2 && numbers@[0] == 1 && numbers@[1] == 5 {
                    control_arrow_action(c)
                } else {
                    standard_action(numbers@, c)
                },
            ),
    {
        self.inEscapeSeq = false;
        self.SetPressTime(now);
        if c == 'M' || c == 'm' {
            return self.HandleMouseEscapeCodes(numbers.as_slice(), c);
        }
        if c == '~' && numbers.len() == 2 && numbers[0] == 3 {
            self.HandleCustomEscapeCodes(numbers.as_slice());
        } else if numbers.len() == 2 && numbers[0] == 1 && numbers[1] == 5 {
            self.HandleControlArrows(numbers.as_slice(), c);
        } else {
            self.HandleStandardEscapeCodes(numbers, c);
        }
        None
    }
}

fn contains_modifier(v: &Vec<KeyModifiers>, m: KeyModifiers) -> (b: bool)
    ensures
        b == v@.contains(m),
{
    let mut k: usize = 0;
    while k < v.len()
        invariant
            k <= v@.len(),
            forall|w: int| 0 <= w < k ==> v@[w] != m,
        decreases v@.len() - k,
    {
        if v[k] == m {
            return true;
        }
        k = k + 1;
    }
    false
}

} // verus!
