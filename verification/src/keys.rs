//! Translation of browser keyboard events into editor key events, and the
//! queue that hands input events to the editor.

use std::collections::VecDeque;
use vstd::prelude::*;
use vstd::string::*;

use crate::ansi::{decimal, law_decimal_is_base_ten};
use crate::path::text_eq;

verus! {

/// The key of a key event.
#[derive(Debug, Clone, Copy, PartialEq, Eq, Structural)]
pub enum KeyCode {
    Enter,
    Backspace,
    Tab,
    Esc,
    Delete,
    Up,
    Down,
    Left,
    Right,
    Home,
    End,
    PageUp,
    PageDown,
    Insert,
    F(u8),
    Char(char),
}

/// The modifier keys held during a key event.
#[derive(Debug, Clone, Copy, PartialEq, Eq, Structural)]
pub struct KeyModifiers {
    pub shift: bool,
    pub control: bool,
    pub alt: bool,
}

/// What a browser key press becomes.
#[derive(Debug, Clone, Copy, PartialEq, Eq, Structural)]
pub enum KeyAction {
    /// No editor event.
    Ignore,
    /// Read the system clipboard and paste it.
    PasteFromClipboard,
    /// An editor key event.
    Key(KeyCode, KeyModifiers),
}

/// Keys that only modify other keys.
pub open spec fn is_modifier_key(key: Seq<char>) -> bool {
    key == "Shift"@ || key == "Control"@ || key == "Alt"@ || key == "Meta"@ || key == "CapsLock"@
        || key == "NumLock"@ || key == "ScrollLock"@
}

/// The editor key a browser key name stands for.
pub open spec fn named_key(key: Seq<char>) -> Option<KeyCode> {
    if key == "Enter"@ {
        Some(KeyCode::Enter)
    } else if key == "Backspace"@ {
        Some(KeyCode::Backspace)
    } else if key == "Tab"@ {
        Some(KeyCode::Tab)
    } else if key == "Escape"@ {
        Some(KeyCode::Esc)
    } else if key == "Delete"@ {
        Some(KeyCode::Delete)
    } else if key == "ArrowUp"@ {
        Some(KeyCode::Up)
    } else if key == "ArrowDown"@ {
        Some(KeyCode::Down)
    } else if key == "ArrowLeft"@ {
        Some(KeyCode::Left)
    } else if key == "ArrowRight"@ {
        Some(KeyCode::Right)
    } else if key == "Home"@ {
        Some(KeyCode::Home)
    } else if key == "End"@ {
        Some(KeyCode::End)
    } else if key == "PageUp"@ {
        Some(KeyCode::PageUp)
    } else if key == "PageDown"@ {
        Some(KeyCode::PageDown)
    } else if key == "Insert"@ {
        Some(KeyCode::Insert)
    } else {
        None
    }
}

pub open spec fn is_digit(c: char) -> bool {
    '0' <= c && c <= '9'
}

pub open spec fn digit_value(c: char) -> nat {
    (c as u32 - '0' as u32) as nat
}

/// The number written by the decimal digits `d`.
pub open spec fn digits_value(d: Seq<char>) -> nat
    decreases d.len(),
{
    if d.len() == 0 {
        0
    } else {
        digits_value(d.drop_last()) * 10 + digit_value(d.last())
    }
}

/// The text after an optional leading `+` that is followed by something.
pub open spec fn unsigned_digits(s: Seq<char>) -> Seq<char> {
    if s.len() > 1 && s[0] == '+' {
        s.drop_first()
    } else {
        s
    }
}

pub open spec fn all_digits(d: Seq<char>) -> bool {
    forall|i: int| 0 <= i < d.len() ==> is_digit(#[trigger] d[i])
}

/// Decimal text read as a byte: an optional `+` sign, then at least one
/// digit, the value at most 255.
pub open spec fn parse_u8_spec(s: Seq<char>) -> Option<u8> {
    let d = unsigned_digits(s);
    if d.len() > 0 && all_digits(d) && digits_value(d) <= 255 {
        Some(digits_value(d) as u8)
    } else {
        None
    }
}

/// The modifiers held.
pub open spec fn modifiers_of(shift: bool, ctrl: bool, alt: bool) -> KeyModifiers {
    KeyModifiers { shift, control: ctrl, alt }
}

/// What pressing the browser key `key` with the given modifiers does.
pub open spec fn translate_key_spec(key: Seq<char>, shift: bool, ctrl: bool, alt: bool) -> KeyAction {
    if is_modifier_key(key) {
        KeyAction::Ignore
    } else if key == "v"@ && ctrl && !alt {
        KeyAction::PasteFromClipboard
    } else {
        let code = match named_key(key) {
            Some(k) => Some(k),
            None => if key.len() > 1 && key[0] == 'F' {
                match parse_u8_spec(key.drop_first()) {
                    Some(n) => if 1 <= n && n <= 24 {
                        Some(KeyCode::F(n))
                    } else {
                        None
                    },
                    None => None,
                }
            } else if key.len() == 1 {
                Some(KeyCode::Char(key[0]))
            } else {
                None
            },
        };
        match code {
            Some(k) => KeyAction::Key(k, modifiers_of(shift, ctrl, alt)),
            None => KeyAction::Ignore,
        }
    }
}

/// Reads decimal text as a byte, as `u8::from_str` does.
pub fn parse_u8(s: &str) -> (r: Option<u8>)
    ensures
        r == parse_u8_spec(s@),
{
    let n = s.unicode_len();
    let start: usize = if n > 1 && s.get_char(0) == '+' {
        1
    } else {
        0
    };
    let ghost d = unsigned_digits(s@);
    assert(d =~= s@.skip(start as int));
    if start >= n {
        return None;
    }
    let mut acc: u32 = 0;
    let mut i: usize = start;
    assert(s@.skip(start as int).take(0) =~= Seq::<char>::empty());
    while i < n
        invariant
            n == s@.len(),
            start <= i <= n,
            d == s@.skip(start as int),
            d == unsigned_digits(s@),
            forall|j: int| 0 <= j < i - start ==> is_digit(#[trigger] d[j]),
            acc == digits_value(d.take(i - start)),
            acc <= 255,
        decreases n - i,
    {
        let c = s.get_char(i);
        assert(d[i - start] == c);
        if !('0' <= c && c <= '9') {
            assert(!is_digit(d[i - start]));
            assert(!all_digits(d));
            assert(parse_u8_spec(s@) is None);
            return None;
        }
        let v = (c as u32) - ('0' as u32);
        proof {
            assert(d.take(i - start + 1).drop_last() =~= d.take(i - start));
            assert(d.take(i - start + 1).last() == c);
        }
        acc = acc * 10 + v;
        assert(acc == digits_value(d.take(i - start + 1)));
        if acc > 255 {
            proof {
                if all_digits(d) {
                    lemma_digits_grow(d, i - start + 1);
                    assert(digits_value(d) > 255);
                }
                assert(parse_u8_spec(s@) is None);
            }
            return None;
        }
        i = i + 1;
    }
    assert(d.take(n - start) =~= d);
    Some(acc as u8)
}

/// A number only grows as digits are appended.
proof fn lemma_digits_grow(d: Seq<char>, k: int)
    requires
        0 <= k <= d.len(),
        all_digits(d),
    ensures
        digits_value(d.take(k)) <= digits_value(d),
    decreases d.len() - k,
{
    if k < d.len() {
        lemma_digits_grow(d, k + 1);
        assert(d.take(k + 1).drop_last() =~= d.take(k));
    } else {
        assert(d.take(k) =~= d);
    }
}

fn named_key_exec(key: &str) -> (r: Option<KeyCode>)
    ensures
        r == named_key(key@),
{
    if text_eq(key, "Enter") {
        Some(KeyCode::Enter)
    } else if text_eq(key, "Backspace") {
        Some(KeyCode::Backspace)
    } else if text_eq(key, "Tab") {
        Some(KeyCode::Tab)
    } else if text_eq(key, "Escape") {
        Some(KeyCode::Esc)
    } else if text_eq(key, "Delete") {
        Some(KeyCode::Delete)
    } else if text_eq(key, "ArrowUp") {
        Some(KeyCode::Up)
    } else if text_eq(key, "ArrowDown") {
        Some(KeyCode::Down)
    } else if text_eq(key, "ArrowLeft") {
        Some(KeyCode::Left)
    } else if text_eq(key, "ArrowRight") {
        Some(KeyCode::Right)
    } else if text_eq(key, "Home") {
        Some(KeyCode::Home)
    } else if text_eq(key, "End") {
        Some(KeyCode::End)
    } else if text_eq(key, "PageUp") {
        Some(KeyCode::PageUp)
    } else if text_eq(key, "PageDown") {
        Some(KeyCode::PageDown)
    } else if text_eq(key, "Insert") {
        Some(KeyCode::Insert)
    } else {
        None
    }
}

/// Translates a browser key press (the DOM `key` value and the modifier
/// flags) into what the editor receives.
pub fn translate_key(key: &str, shift: bool, ctrl: bool, alt: bool) -> (r: KeyAction)
    ensures
        r == translate_key_spec(key@, shift, ctrl, alt),
{
    if text_eq(key, "Shift") || text_eq(key, "Control") || text_eq(key, "Alt") || text_eq(key, "Meta")
        || text_eq(key, "CapsLock") || text_eq(key, "NumLock") || text_eq(key, "ScrollLock") {
        return KeyAction::Ignore;
    }
    if text_eq(key, "v") && ctrl && !alt {
        return KeyAction::PasteFromClipboard;
    }
    let n = key.unicode_len();
    let code = match named_key_exec(key) {
        Some(k) => Some(k),
        None => {
            if n > 1 && key.get_char(0) == 'F' {
                let rest = key.substring_char(1, n);
                assert(rest@ =~= key@.drop_first());
                match parse_u8(rest) {
                    Some(v) => if 1 <= v && v <= 24 {
                        Some(KeyCode::F(v))
                    } else {
                        None
                    },
                    None => None,
                }
            } else if n == 1 {
                Some(KeyCode::Char(key.get_char(0)))
            } else {
                None
            }
        },
    };
    match code {
        Some(k) => KeyAction::Key(k, KeyModifiers { shift, control: ctrl, alt }),
        None => KeyAction::Ignore,
    }
}

// ── The input event queue ──────────────────────────────────────────────────

/// Events waiting for the editor, and whether the editor left a waker behind.
pub struct EventQueue<E> {
    queue: VecDeque<E>,
    waker_registered: bool,
}

pub struct EventQueueView<E> {
    pub queue: Seq<E>,
    pub waker_registered: bool,
}

impl<E> View for EventQueue<E> {
    type V = EventQueueView<E>;

    closed spec fn view(&self) -> EventQueueView<E> {
        EventQueueView { queue: self.queue@, waker_registered: self.waker_registered }
    }
}

impl<E> EventQueue<E> {
    pub fn new() -> (r: EventQueue<E>)
        ensures
            r@.queue == Seq::<E>::empty(),
            !r@.waker_registered,
    {
        EventQueue { queue: VecDeque::new(), waker_registered: false }
    }

    /// Queues an event; answers whether the editor's waker is to be woken.
    /// The waker stays registered.
    pub fn send(&mut self, event: E) -> (wake: bool)
        ensures
            final(self)@.queue == old(self)@.queue.push(event),
            final(self)@.waker_registered == old(self)@.waker_registered,
            wake == old(self)@.waker_registered,
    {
        self.queue.push_back(event);
        self.waker_registered
    }

    /// One poll of the stream: the oldest event, or `None` when there is
    /// none yet, in which case the editor's waker is to be kept.  The stream
    /// never ends.
    pub fn poll_next(&mut self) -> (r: Option<E>)
        ensures
            old(self)@.queue.len() > 0 ==> r == Some(old(self)@.queue[0]) && final(self)@
                == (EventQueueView {
                queue: old(self)@.queue.drop_first(),
                waker_registered: old(self)@.waker_registered,
            }),
            old(self)@.queue.len() == 0 ==> r is None && final(self)@ == (EventQueueView {
                queue: old(self)@.queue,
                waker_registered: true,
            }),
    {
        let item = self.queue.pop_front();
        match item {
            Some(e) => {
                assert(self.queue@ =~= old(self)@.queue.drop_first());
                Some(e)
            },
            None => {
                self.waker_registered = true;
                None
            },
        }
    }
}

/// The stream of input events the editor reads.
#[derive(Debug, Clone, Copy, PartialEq, Eq, Structural)]
pub struct WasmEventStream;

/// The editor's input stream.
pub fn init() -> (r: WasmEventStream)
    ensures
        r == WasmEventStream,
{
    WasmEventStream
}

/// The queue after each of `events` is sent, in order.
pub open spec fn send_all<E>(q: EventQueueView<E>, events: Seq<E>) -> EventQueueView<E>
    decreases events.len(),
{
    if events.len() == 0 {
        q
    } else {
        let p = send_all(q, events.drop_last());
        EventQueueView { queue: p.queue.push(events.last()), waker_registered: p.waker_registered }
    }
}

/// The queue after `n` polls that each found an event.
pub open spec fn polled<E>(q: EventQueueView<E>, n: nat) -> EventQueueView<E>
    decreases n,
{
    if n == 0 {
        q
    } else {
        let p = polled(q, (n - 1) as nat);
        EventQueueView { queue: p.queue.drop_first(), waker_registered: p.waker_registered }
    }
}

proof fn lemma_send_all<E>(q: EventQueueView<E>, events: Seq<E>)
    ensures
        send_all(q, events).queue == q.queue + events,
    decreases events.len(),
{
    if events.len() > 0 {
        lemma_send_all(q, events.drop_last());
        assert(q.queue + events.drop_last().push(events.last()) =~= q.queue + events);
        assert(events.drop_last().push(events.last()) =~= events);
    } else {
        assert(q.queue + events =~= q.queue);
    }
}

proof fn lemma_polled<E>(q: EventQueueView<E>, n: nat)
    requires
        n <= q.queue.len(),
    ensures
        polled(q, n).queue == q.queue.skip(n as int),
    decreases n,
{
    if n > 0 {
        lemma_polled(q, (n - 1) as nat);
        assert(q.queue.skip(n - 1).drop_first() =~= q.queue.skip(n as int));
    } else {
        assert(q.queue.skip(0) =~= q.queue);
    }
}

/// Events sent while the editor is not polling come out in the order they
/// were sent, none lost or repeated: the poll after `i` others yields the
/// `i`-th event, and once all are taken the next poll finds nothing.
pub proof fn law_events_in_order<E>(q: EventQueueView<E>, events: Seq<E>)
    requires
        q.queue.len() == 0,
    ensures
        forall|i: nat|
            i < events.len() ==> #[trigger] polled(send_all(q, events), i).queue[0]
                == events[i as int],
        polled(send_all(q, events), events.len()).queue.len() == 0,
{
    lemma_send_all(q, events);
    let d = send_all(q, events);
    assert(d.queue =~= events);
    assert forall|i: nat| i < events.len() implies #[trigger] polled(d, i).queue[0] == events[i as int] by {
        lemma_polled(d, i);
    }
    lemma_polled(d, events.len());
}

/// Each named DOM key gives its own editor key, with the modifiers held:
/// `Enter` is Enter, `Backspace` Backspace, `Tab` Tab, `Escape` Esc, `Delete`
/// Delete, the arrows Up, Down, Left and Right, and `Home`, `End`, `PageUp`,
/// `PageDown` and `Insert` themselves.
pub proof fn law_named_keys(shift: bool, ctrl: bool, alt: bool)
    ensures
        translate_key_spec("Enter"@, shift, ctrl, alt) == KeyAction::Key(
            KeyCode::Enter,
            KeyModifiers { shift, control: ctrl, alt },
        ),
        translate_key_spec("Backspace"@, shift, ctrl, alt) == KeyAction::Key(
            KeyCode::Backspace,
            KeyModifiers { shift, control: ctrl, alt },
        ),
        translate_key_spec("Tab"@, shift, ctrl, alt) == KeyAction::Key(
            KeyCode::Tab,
            KeyModifiers { shift, control: ctrl, alt },
        ),
        translate_key_spec("Escape"@, shift, ctrl, alt) == KeyAction::Key(
            KeyCode::Esc,
            KeyModifiers { shift, control: ctrl, alt },
        ),
        translate_key_spec("Delete"@, shift, ctrl, alt) == KeyAction::Key(
            KeyCode::Delete,
            KeyModifiers { shift, control: ctrl, alt },
        ),
        translate_key_spec("ArrowUp"@, shift, ctrl, alt) == KeyAction::Key(
            KeyCode::Up,
            KeyModifiers { shift, control: ctrl, alt },
        ),
        translate_key_spec("ArrowDown"@, shift, ctrl, alt) == KeyAction::Key(
            KeyCode::Down,
            KeyModifiers { shift, control: ctrl, alt },
        ),
        translate_key_spec("ArrowLeft"@, shift, ctrl, alt) == KeyAction::Key(
            KeyCode::Left,
            KeyModifiers { shift, control: ctrl, alt },
        ),
        translate_key_spec("ArrowRight"@, shift, ctrl, alt) == KeyAction::Key(
            KeyCode::Right,
            KeyModifiers { shift, control: ctrl, alt },
        ),
        translate_key_spec("Home"@, shift, ctrl, alt) == KeyAction::Key(
            KeyCode::Home,
            KeyModifiers { shift, control: ctrl, alt },
        ),
        translate_key_spec("End"@, shift, ctrl, alt) == KeyAction::Key(
            KeyCode::End,
            KeyModifiers { shift, control: ctrl, alt },
        ),
        translate_key_spec("PageUp"@, shift, ctrl, alt) == KeyAction::Key(
            KeyCode::PageUp,
            KeyModifiers { shift, control: ctrl, alt },
        ),
        translate_key_spec("PageDown"@, shift, ctrl, alt) == KeyAction::Key(
            KeyCode::PageDown,
            KeyModifiers { shift, control: ctrl, alt },
        ),
        translate_key_spec("Insert"@, shift, ctrl, alt) == KeyAction::Key(
            KeyCode::Insert,
            KeyModifiers { shift, control: ctrl, alt },
        ),
{
    assert(translate_key_spec("Enter"@, shift, ctrl, alt) == KeyAction::Key(
        KeyCode::Enter,
        KeyModifiers { shift, control: ctrl, alt },
    )) by {
        reveal_strlit("Enter");
        reveal_strlit("Backspace");
        reveal_strlit("Tab");
        reveal_strlit("Escape");
        reveal_strlit("Delete");
        reveal_strlit("ArrowUp");
        reveal_strlit("ArrowDown");
        reveal_strlit("ArrowLeft");
        reveal_strlit("ArrowRight");
        reveal_strlit("Home");
        reveal_strlit("End");
        reveal_strlit("PageUp");
        reveal_strlit("PageDown");
        reveal_strlit("Insert");
        reveal_strlit("Shift");
        reveal_strlit("Control");
        reveal_strlit("Alt");
        reveal_strlit("Meta");
        reveal_strlit("CapsLock");
        reveal_strlit("NumLock");
        reveal_strlit("ScrollLock");
        reveal_strlit("v");
    }
    assert(translate_key_spec("Backspace"@, shift, ctrl, alt) == KeyAction::Key(
        KeyCode::Backspace,
        KeyModifiers { shift, control: ctrl, alt },
    )) by {
        reveal_strlit("Enter");
        reveal_strlit("Backspace");
        reveal_strlit("Tab");
        reveal_strlit("Escape");
        reveal_strlit("Delete");
        reveal_strlit("ArrowUp");
        reveal_strlit("ArrowDown");
        reveal_strlit("ArrowLeft");
        reveal_strlit("ArrowRight");
        reveal_strlit("Home");
        reveal_strlit("End");
        reveal_strlit("PageUp");
        reveal_strlit("PageDown");
        reveal_strlit("Insert");
        reveal_strlit("Shift");
        reveal_strlit("Control");
        reveal_strlit("Alt");
        reveal_strlit("Meta");
        reveal_strlit("CapsLock");
        reveal_strlit("NumLock");
        reveal_strlit("ScrollLock");
        reveal_strlit("v");
    }
    assert(translate_key_spec("Tab"@, shift, ctrl, alt) == KeyAction::Key(
        KeyCode::Tab,
        KeyModifiers { shift, control: ctrl, alt },
    )) by {
        reveal_strlit("Enter");
        reveal_strlit("Backspace");
        reveal_strlit("Tab");
        reveal_strlit("Escape");
        reveal_strlit("Delete");
        reveal_strlit("ArrowUp");
        reveal_strlit("ArrowDown");
        reveal_strlit("ArrowLeft");
        reveal_strlit("ArrowRight");
        reveal_strlit("Home");
        reveal_strlit("End");
        reveal_strlit("PageUp");
        reveal_strlit("PageDown");
        reveal_strlit("Insert");
        reveal_strlit("Shift");
        reveal_strlit("Control");
        reveal_strlit("Alt");
        reveal_strlit("Meta");
        reveal_strlit("CapsLock");
        reveal_strlit("NumLock");
        reveal_strlit("ScrollLock");
        reveal_strlit("v");
    }
    assert(translate_key_spec("Escape"@, shift, ctrl, alt) == KeyAction::Key(
        KeyCode::Esc,
        KeyModifiers { shift, control: ctrl, alt },
    )) by {
        reveal_strlit("Enter");
        reveal_strlit("Backspace");
        reveal_strlit("Tab");
        reveal_strlit("Escape");
        reveal_strlit("Delete");
        reveal_strlit("ArrowUp");
        reveal_strlit("ArrowDown");
        reveal_strlit("ArrowLeft");
        reveal_strlit("ArrowRight");
        reveal_strlit("Home");
        reveal_strlit("End");
        reveal_strlit("PageUp");
        reveal_strlit("PageDown");
        reveal_strlit("Insert");
        reveal_strlit("Shift");
        reveal_strlit("Control");
        reveal_strlit("Alt");
        reveal_strlit("Meta");
        reveal_strlit("CapsLock");
        reveal_strlit("NumLock");
        reveal_strlit("ScrollLock");
        reveal_strlit("v");
    }
    assert(translate_key_spec("Delete"@, shift, ctrl, alt) == KeyAction::Key(
        KeyCode::Delete,
        KeyModifiers { shift, control: ctrl, alt },
    )) by {
        reveal_strlit("Enter");
        reveal_strlit("Backspace");
        reveal_strlit("Tab");
        reveal_strlit("Escape");
        reveal_strlit("Delete");
        reveal_strlit("ArrowUp");
        reveal_strlit("ArrowDown");
        reveal_strlit("ArrowLeft");
        reveal_strlit("ArrowRight");
        reveal_strlit("Home");
        reveal_strlit("End");
        reveal_strlit("PageUp");
        reveal_strlit("PageDown");
        reveal_strlit("Insert");
        reveal_strlit("Shift");
        reveal_strlit("Control");
        reveal_strlit("Alt");
        reveal_strlit("Meta");
        reveal_strlit("CapsLock");
        reveal_strlit("NumLock");
        reveal_strlit("ScrollLock");
        reveal_strlit("v");
    }
    assert(translate_key_spec("ArrowUp"@, shift, ctrl, alt) == KeyAction::Key(
        KeyCode::Up,
        KeyModifiers { shift, control: ctrl, alt },
    )) by {
        reveal_strlit("Enter");
        reveal_strlit("Backspace");
        reveal_strlit("Tab");
        reveal_strlit("Escape");
        reveal_strlit("Delete");
        reveal_strlit("ArrowUp");
        reveal_strlit("ArrowDown");
        reveal_strlit("ArrowLeft");
        reveal_strlit("ArrowRight");
        reveal_strlit("Home");
        reveal_strlit("End");
        reveal_strlit("PageUp");
        reveal_strlit("PageDown");
        reveal_strlit("Insert");
        reveal_strlit("Shift");
        reveal_strlit("Control");
        reveal_strlit("Alt");
        reveal_strlit("Meta");
        reveal_strlit("CapsLock");
        reveal_strlit("NumLock");
        reveal_strlit("ScrollLock");
        reveal_strlit("v");
    }
    assert(translate_key_spec("ArrowDown"@, shift, ctrl, alt) == KeyAction::Key(
        KeyCode::Down,
        KeyModifiers { shift, control: ctrl, alt },
    )) by {
        reveal_strlit("Enter");
        reveal_strlit("Backspace");
        reveal_strlit("Tab");
        reveal_strlit("Escape");
        reveal_strlit("Delete");
        reveal_strlit("ArrowUp");
        reveal_strlit("ArrowDown");
        reveal_strlit("ArrowLeft");
        reveal_strlit("ArrowRight");
        reveal_strlit("Home");
        reveal_strlit("End");
        reveal_strlit("PageUp");
        reveal_strlit("PageDown");
        reveal_strlit("Insert");
        reveal_strlit("Shift");
        reveal_strlit("Control");
        reveal_strlit("Alt");
        reveal_strlit("Meta");
        reveal_strlit("CapsLock");
        reveal_strlit("NumLock");
        reveal_strlit("ScrollLock");
        reveal_strlit("v");
    }
    assert(translate_key_spec("ArrowLeft"@, shift, ctrl, alt) == KeyAction::Key(
        KeyCode::Left,
        KeyModifiers { shift, control: ctrl, alt },
    )) by {
        reveal_strlit("Enter");
        reveal_strlit("Backspace");
        reveal_strlit("Tab");
        reveal_strlit("Escape");
        reveal_strlit("Delete");
        reveal_strlit("ArrowUp");
        reveal_strlit("ArrowDown");
        reveal_strlit("ArrowLeft");
        reveal_strlit("ArrowRight");
        reveal_strlit("Home");
        reveal_strlit("End");
        reveal_strlit("PageUp");
        reveal_strlit("PageDown");
        reveal_strlit("Insert");
        reveal_strlit("Shift");
        reveal_strlit("Control");
        reveal_strlit("Alt");
        reveal_strlit("Meta");
        reveal_strlit("CapsLock");
        reveal_strlit("NumLock");
        reveal_strlit("ScrollLock");
        reveal_strlit("v");
    }
    assert(translate_key_spec("ArrowRight"@, shift, ctrl, alt) == KeyAction::Key(
        KeyCode::Right,
        KeyModifiers { shift, control: ctrl, alt },
    )) by {
        reveal_strlit("Enter");
        reveal_strlit("Backspace");
        reveal_strlit("Tab");
        reveal_strlit("Escape");
        reveal_strlit("Delete");
        reveal_strlit("ArrowUp");
        reveal_strlit("ArrowDown");
        reveal_strlit("ArrowLeft");
        reveal_strlit("ArrowRight");
        reveal_strlit("Home");
        reveal_strlit("End");
        reveal_strlit("PageUp");
        reveal_strlit("PageDown");
        reveal_strlit("Insert");
        reveal_strlit("Shift");
        reveal_strlit("Control");
        reveal_strlit("Alt");
        reveal_strlit("Meta");
        reveal_strlit("CapsLock");
        reveal_strlit("NumLock");
        reveal_strlit("ScrollLock");
        reveal_strlit("v");
    }
    assert(translate_key_spec("Home"@, shift, ctrl, alt) == KeyAction::Key(
        KeyCode::Home,
        KeyModifiers { shift, control: ctrl, alt },
    )) by {
        reveal_strlit("Enter");
        reveal_strlit("Backspace");
        reveal_strlit("Tab");
        reveal_strlit("Escape");
        reveal_strlit("Delete");
        reveal_strlit("ArrowUp");
        reveal_strlit("ArrowDown");
        reveal_strlit("ArrowLeft");
        reveal_strlit("ArrowRight");
        reveal_strlit("Home");
        reveal_strlit("End");
        reveal_strlit("PageUp");
        reveal_strlit("PageDown");
        reveal_strlit("Insert");
        reveal_strlit("Shift");
        reveal_strlit("Control");
        reveal_strlit("Alt");
        reveal_strlit("Meta");
        reveal_strlit("CapsLock");
        reveal_strlit("NumLock");
        reveal_strlit("ScrollLock");
        reveal_strlit("v");
    }
    assert(translate_key_spec("End"@, shift, ctrl, alt) == KeyAction::Key(
        KeyCode::End,
        KeyModifiers { shift, control: ctrl, alt },
    )) by {
        reveal_strlit("Enter");
        reveal_strlit("Backspace");
        reveal_strlit("Tab");
        reveal_strlit("Escape");
        reveal_strlit("Delete");
        reveal_strlit("ArrowUp");
        reveal_strlit("ArrowDown");
        reveal_strlit("ArrowLeft");
        reveal_strlit("ArrowRight");
        reveal_strlit("Home");
        reveal_strlit("End");
        reveal_strlit("PageUp");
        reveal_strlit("PageDown");
        reveal_strlit("Insert");
        reveal_strlit("Shift");
        reveal_strlit("Control");
        reveal_strlit("Alt");
        reveal_strlit("Meta");
        reveal_strlit("CapsLock");
        reveal_strlit("NumLock");
        reveal_strlit("ScrollLock");
        reveal_strlit("v");
    }
    assert(translate_key_spec("PageUp"@, shift, ctrl, alt) == KeyAction::Key(
        KeyCode::PageUp,
        KeyModifiers { shift, control: ctrl, alt },
    )) by {
        reveal_strlit("Enter");
        reveal_strlit("Backspace");
        reveal_strlit("Tab");
        reveal_strlit("Escape");
        reveal_strlit("Delete");
        reveal_strlit("ArrowUp");
        reveal_strlit("ArrowDown");
        reveal_strlit("ArrowLeft");
        reveal_strlit("ArrowRight");
        reveal_strlit("Home");
        reveal_strlit("End");
        reveal_strlit("PageUp");
        reveal_strlit("PageDown");
        reveal_strlit("Insert");
        reveal_strlit("Shift");
        reveal_strlit("Control");
        reveal_strlit("Alt");
        reveal_strlit("Meta");
        reveal_strlit("CapsLock");
        reveal_strlit("NumLock");
        reveal_strlit("ScrollLock");
        reveal_strlit("v");
    }
    assert(translate_key_spec("PageDown"@, shift, ctrl, alt) == KeyAction::Key(
        KeyCode::PageDown,
        KeyModifiers { shift, control: ctrl, alt },
    )) by {
        reveal_strlit("Enter");
        reveal_strlit("Backspace");
        reveal_strlit("Tab");
        reveal_strlit("Escape");
        reveal_strlit("Delete");
        reveal_strlit("ArrowUp");
        reveal_strlit("ArrowDown");
        reveal_strlit("ArrowLeft");
        reveal_strlit("ArrowRight");
        reveal_strlit("Home");
        reveal_strlit("End");
        reveal_strlit("PageUp");
        reveal_strlit("PageDown");
        reveal_strlit("Insert");
        reveal_strlit("Shift");
        reveal_strlit("Control");
        reveal_strlit("Alt");
        reveal_strlit("Meta");
        reveal_strlit("CapsLock");
        reveal_strlit("NumLock");
        reveal_strlit("ScrollLock");
        reveal_strlit("v");
    }
    assert(translate_key_spec("Insert"@, shift, ctrl, alt) == KeyAction::Key(
        KeyCode::Insert,
        KeyModifiers { shift, control: ctrl, alt },
    )) by {
        reveal_strlit("Enter");
        reveal_strlit("Backspace");
        reveal_strlit("Tab");
        reveal_strlit("Escape");
        reveal_strlit("Delete");
        reveal_strlit("ArrowUp");
        reveal_strlit("ArrowDown");
        reveal_strlit("ArrowLeft");
        reveal_strlit("ArrowRight");
        reveal_strlit("Home");
        reveal_strlit("End");
        reveal_strlit("PageUp");
        reveal_strlit("PageDown");
        reveal_strlit("Insert");
        reveal_strlit("Shift");
        reveal_strlit("Control");
        reveal_strlit("Alt");
        reveal_strlit("Meta");
        reveal_strlit("CapsLock");
        reveal_strlit("NumLock");
        reveal_strlit("ScrollLock");
        reveal_strlit("v");
    }
}

/// The modifier keys alone give no editor event, whatever is held.
pub proof fn law_modifier_keys_ignored(shift: bool, ctrl: bool, alt: bool)
    ensures
        translate_key_spec("Shift"@, shift, ctrl, alt) == KeyAction::Ignore,
        translate_key_spec("Control"@, shift, ctrl, alt) == KeyAction::Ignore,
        translate_key_spec("Alt"@, shift, ctrl, alt) == KeyAction::Ignore,
        translate_key_spec("Meta"@, shift, ctrl, alt) == KeyAction::Ignore,
        translate_key_spec("CapsLock"@, shift, ctrl, alt) == KeyAction::Ignore,
        translate_key_spec("NumLock"@, shift, ctrl, alt) == KeyAction::Ignore,
        translate_key_spec("ScrollLock"@, shift, ctrl, alt) == KeyAction::Ignore,
{
        reveal_strlit("Shift");
        reveal_strlit("Control");
        reveal_strlit("Alt");
        reveal_strlit("Meta");
        reveal_strlit("CapsLock");
        reveal_strlit("NumLock");
        reveal_strlit("ScrollLock");
}

/// A one-character key, or one whose name starts with `F`, is neither a
/// modifier key nor one of the named keys.
proof fn lemma_plain_key(key: Seq<char>)
    requires
        key.len() == 1 || (key.len() > 0 && key[0] == 'F'),
    ensures
        !is_modifier_key(key),
        named_key(key) is None,
{
    reveal_strlit("Shift");
    reveal_strlit("Control");
    reveal_strlit("Alt");
    reveal_strlit("Meta");
    reveal_strlit("CapsLock");
    reveal_strlit("NumLock");
    reveal_strlit("ScrollLock");
    reveal_strlit("Enter");
    reveal_strlit("Backspace");
    reveal_strlit("Tab");
    reveal_strlit("Escape");
    reveal_strlit("Delete");
    reveal_strlit("ArrowUp");
    reveal_strlit("ArrowDown");
    reveal_strlit("ArrowLeft");
    reveal_strlit("ArrowRight");
    reveal_strlit("Home");
    reveal_strlit("End");
    reveal_strlit("PageUp");
    reveal_strlit("PageDown");
    reveal_strlit("Insert");
}

/// A key whose name is one character types that character, with the
/// modifiers held; the one exception is Ctrl+V without Alt, which pastes
/// the system clipboard.
pub proof fn law_character_keys(ch: char, shift: bool, ctrl: bool, alt: bool)
    ensures
        translate_key_spec(seq![ch], shift, ctrl, alt) == if ch == 'v' && ctrl && !alt {
            KeyAction::PasteFromClipboard
        } else {
            KeyAction::Key(KeyCode::Char(ch), KeyModifiers { shift, control: ctrl, alt })
        },
{
    lemma_plain_key(seq![ch]);
    reveal_strlit("v");
    assert(ch == 'v' ==> seq![ch] =~= "v"@);
}

/// `F1` to `F24` are the function keys, with the modifiers held; `F`
/// followed by any other number gives no editor event.
pub proof fn law_function_keys(n: u8, shift: bool, ctrl: bool, alt: bool)
    ensures
        translate_key_spec("F"@ + decimal(n as nat), shift, ctrl, alt) == if 1 <= n && n <= 24 {
            KeyAction::Key(KeyCode::F(n), KeyModifiers { shift, control: ctrl, alt })
        } else {
            KeyAction::Ignore
        },
{
    reveal_strlit("F");
    reveal_strlit("v");
    let digits = decimal(n as nat);
    let key = "F"@ + digits;
    law_decimal_is_base_ten(n as nat);
    assert(key[0] == 'F');
    lemma_plain_key(key);
    assert(key != "v"@) by {
        assert(key.len() > 1);
    }
    assert(key.drop_first() =~= digits);
    assert(digits[0] != '+');
    assert(unsigned_digits(digits) == digits);
    assert(all_digits(digits)) by {
        assert forall|i: int| 0 <= i < digits.len() implies is_digit(#[trigger] digits[i]) by {
            assert('0' <= digits[i] && digits[i] <= '9');
        }
    }
    assert(parse_u8_spec(digits) == Some(n));
}

} // verus!
