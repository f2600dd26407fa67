//! Keyboard mapping: UI key texts to RDP scancodes or Unicode keys, shortcut letters, and the
//! key presses that turn one committed text into the next.
//!
//! Special keys arrive as the private-use characters that the Slint UI toolkit assigns to them
//! (`slint::platform::Key`).

use vstd::prelude::*;
use vstd::string::*;

use crate::input::KeyCode;
use crate::session::SessionCommand;

verus! {

pub const KEY_BACKSPACE: char = '\u{8}';

pub const KEY_TAB: char = '\u{9}';

pub const KEY_RETURN: char = '\u{a}';

pub const KEY_ESCAPE: char = '\u{1b}';

pub const KEY_SHIFT: char = '\u{10}';

pub const KEY_CONTROL: char = '\u{11}';

pub const KEY_ALT: char = '\u{12}';

pub const KEY_META: char = '\u{17}';

pub const KEY_DELETE: char = '\u{7f}';

pub const KEY_UP_ARROW: char = '\u{f700}';

pub const KEY_DOWN_ARROW: char = '\u{f701}';

pub const KEY_LEFT_ARROW: char = '\u{f702}';

pub const KEY_RIGHT_ARROW: char = '\u{f703}';

pub const KEY_F1: char = '\u{f704}';

pub const KEY_F12: char = '\u{f70f}';

pub const KEY_HOME: char = '\u{f729}';

pub const KEY_END: char = '\u{f72b}';

pub const KEY_PAGE_UP: char = '\u{f72c}';

pub const KEY_PAGE_DOWN: char = '\u{f72d}';

/// `char::is_control`: the general category Cc.
pub open spec fn is_control_char(c: char) -> bool {
    c <= '\u{1f}' || ('\u{7f}' <= c && c <= '\u{9f}')
}

/// The key that a key text's first character stands for.
pub open spec fn key_for_char(ch: char) -> Option<KeyCode> {
    if KEY_F1 <= ch && ch <= KEY_F12 {
        let index = ch as int - KEY_F1 as int;
        Some(
            KeyCode::Scancode {
                code: if index < 10 {
                    (0x3b + index) as u8
                } else {
                    (0x57 + index - 10) as u8
                },
                extended: false,
            },
        )
    } else if ch == KEY_RETURN {
        Some(KeyCode::Scancode { code: 0x1c, extended: false })
    } else if ch == KEY_TAB {
        Some(KeyCode::Scancode { code: 0x0f, extended: false })
    } else if ch == KEY_BACKSPACE {
        Some(KeyCode::Scancode { code: 0x0e, extended: false })
    } else if ch == KEY_ESCAPE {
        Some(KeyCode::Scancode { code: 0x01, extended: false })
    } else if ch == KEY_CONTROL {
        Some(KeyCode::Scancode { code: 0x1d, extended: false })
    } else if ch == KEY_SHIFT {
        Some(KeyCode::Scancode { code: 0x2a, extended: false })
    } else if ch == KEY_ALT {
        Some(KeyCode::Scancode { code: 0x38, extended: false })
    } else if ch == KEY_META {
        Some(KeyCode::Scancode { code: 0x5b, extended: true })
    } else if ch == KEY_LEFT_ARROW {
        Some(KeyCode::Scancode { code: 0x4b, extended: true })
    } else if ch == KEY_RIGHT_ARROW {
        Some(KeyCode::Scancode { code: 0x4d, extended: true })
    } else if ch == KEY_UP_ARROW {
        Some(KeyCode::Scancode { code: 0x48, extended: true })
    } else if ch == KEY_DOWN_ARROW {
        Some(KeyCode::Scancode { code: 0x50, extended: true })
    } else if ch == KEY_DELETE {
        Some(KeyCode::Scancode { code: 0x53, extended: true })
    } else if ch == KEY_HOME {
        Some(KeyCode::Scancode { code: 0x47, extended: true })
    } else if ch == KEY_END {
        Some(KeyCode::Scancode { code: 0x4f, extended: true })
    } else if ch == KEY_PAGE_UP {
        Some(KeyCode::Scancode { code: 0x49, extended: true })
    } else if ch == KEY_PAGE_DOWN {
        Some(KeyCode::Scancode { code: 0x51, extended: true })
    } else if is_control_char(ch) || ('\u{e000}' <= ch && ch <= '\u{f8ff}') {
        None
    } else {
        Some(KeyCode::Unicode(ch))
    }
}

/// The key for a UI key text: its first character, if any.
pub open spec fn key_for_text(text: Seq<char>) -> Option<KeyCode> {
    if text.len() == 0 {
        None
    } else {
        key_for_char(text[0])
    }
}

fn key_for(ch: char) -> (r: Option<KeyCode>)
    ensures
        r == key_for_char(ch),
{
    if KEY_F1 <= ch && ch <= KEY_F12 {
        let index: u32 = (ch as u32) - (KEY_F1 as u32);
        let code: u8 = if index < 10 {
            (0x3b + index) as u8
        } else {
            (0x57 + index - 10) as u8
        };
        return Some(KeyCode::Scancode { code, extended: false });
    }
    let plain: u8 = if ch == KEY_RETURN {
        0x1c
    } else if ch == KEY_TAB {
        0x0f
    } else if ch == KEY_BACKSPACE {
        0x0e
    } else if ch == KEY_ESCAPE {
        0x01
    } else if ch == KEY_CONTROL {
        0x1d
    } else if ch == KEY_SHIFT {
        0x2a
    } else if ch == KEY_ALT {
        0x38
    } else {
        0
    };
    if plain != 0 {
        return Some(KeyCode::Scancode { code: plain, extended: false });
    }
    let extended: u8 = if ch == KEY_META {
        0x5b
    } else if ch == KEY_LEFT_ARROW {
        0x4b
    } else if ch == KEY_RIGHT_ARROW {
        0x4d
    } else if ch == KEY_UP_ARROW {
        0x48
    } else if ch == KEY_DOWN_ARROW {
        0x50
    } else if ch == KEY_DELETE {
        0x53
    } else if ch == KEY_HOME {
        0x47
    } else if ch == KEY_END {
        0x4f
    } else if ch == KEY_PAGE_UP {
        0x49
    } else if ch == KEY_PAGE_DOWN {
        0x51
    } else {
        0
    };
    if extended != 0 {
        return Some(KeyCode::Scancode { code: extended, extended: true });
    }
    if ch <= '\u{1f}' || ('\u{7f}' <= ch && ch <= '\u{9f}') || ('\u{e000}' <= ch && ch <= '\u{f8ff}') {
        return None;
    }
    Some(KeyCode::Unicode(ch))
}

/// The key that a UI key text stands for: a function, editing or modifier key as its
/// scancode, any other printable character as itself.
pub fn key_code(text: &str) -> (r: Option<KeyCode>)
    ensures
        r == key_for_text(text@),
{
    if text.unicode_len() == 0 {
        return None;
    }
    key_for(text.get_char(0))
}

/// The scancode of a letter key.
pub open spec fn letter_scancode(c: char) -> Option<u8> {
    if c == 'a' {
        Some(0x1eu8)
    } else if c == 'b' {
        Some(0x30u8)
    } else if c == 'c' {
        Some(0x2eu8)
    } else if c == 'd' {
        Some(0x20u8)
    } else if c == 'e' {
        Some(0x12u8)
    } else if c == 'f' {
        Some(0x21u8)
    } else if c == 'g' {
        Some(0x22u8)
    } else if c == 'h' {
        Some(0x23u8)
    } else if c == 'i' {
        Some(0x17u8)
    } else if c == 'j' {
        Some(0x24u8)
    } else if c == 'k' {
        Some(0x25u8)
    } else if c == 'l' {
        Some(0x26u8)
    } else if c == 'm' {
        Some(0x32u8)
    } else if c == 'n' {
        Some(0x31u8)
    } else if c == 'o' {
        Some(0x18u8)
    } else if c == 'p' {
        Some(0x19u8)
    } else if c == 'q' {
        Some(0x10u8)
    } else if c == 'r' {
        Some(0x13u8)
    } else if c == 's' {
        Some(0x1fu8)
    } else if c == 't' {
        Some(0x14u8)
    } else if c == 'u' {
        Some(0x16u8)
    } else if c == 'v' {
        Some(0x2fu8)
    } else if c == 'w' {
        Some(0x11u8)
    } else if c == 'x' {
        Some(0x2du8)
    } else if c == 'y' {
        Some(0x15u8)
    } else if c == 'z' {
        Some(0x2cu8)
    } else {
        None
    }
}

/// `char::to_ascii_lowercase`.
pub open spec fn ascii_lower(c: char) -> char {
    if 'A' <= c && c <= 'Z' {
        ((c as int) + 32) as char
    } else {
        c
    }
}

fn letter_code(c: char) -> (r: Option<u8>)
    ensures
        r == letter_scancode(c),
{
    if c < 'a' || c > 'z' {
        return None;
    }
    let table: [u8; 26] = [
        0x1e, 0x30, 0x2e, 0x20, 0x12, 0x21, 0x22, 0x23, 0x17, 0x24, 0x25, 0x26, 0x32, 0x31, 0x18,
        0x19, 0x10, 0x13, 0x1f, 0x14, 0x16, 0x2f, 0x11, 0x2d, 0x15, 0x2c,
    ];
    let index = (c as u32 - 'a' as u32) as usize;
    proof {
        assert(table@ == seq![
            0x1eu8, 0x30u8, 0x2eu8, 0x20u8, 0x12u8, 0x21u8, 0x22u8, 0x23u8, 0x17u8, 0x24u8, 0x25u8,
            0x26u8, 0x32u8, 0x31u8, 0x18u8, 0x19u8, 0x10u8, 0x13u8, 0x1fu8, 0x14u8, 0x16u8, 0x2fu8,
            0x11u8, 0x2du8, 0x15u8, 0x2cu8,
        ]);
    }
    Some(table[index])
}

/// The key for a UI key text while a shortcut modifier is held: a letter (of either case) as
/// its letter scancode, anything else as `key_code` maps it.
pub open spec fn shortcut_for_text(text: Seq<char>) -> Option<KeyCode> {
    if text.len() == 0 {
        None
    } else {
        match letter_scancode(ascii_lower(text[0])) {
            Some(code) => Some(KeyCode::Scancode { code, extended: false }),
            None => key_for_text(text),
        }
    }
}

pub fn shortcut_key(text: &str) -> (r: Option<KeyCode>)
    ensures
        r == shortcut_for_text(text@),
{
    if text.unicode_len() == 0 {
        return None;
    }
    let first = text.get_char(0);
    let lower = if 'A' <= first && first <= 'Z' {
        ((first as u32) + 32) as u8 as char
    } else {
        first
    };
    proof {
        assert(lower == ascii_lower(first));
    }
    match letter_code(lower) {
        Some(code) => Some(KeyCode::Scancode { code, extended: false }),
        None => key_code(text),
    }
}

pub open spec fn key_tap(k: KeyCode) -> Seq<SessionCommand> {
    seq![SessionCommand::KeyDown(k), SessionCommand::KeyUp(k)]
}

pub open spec fn backspace_key() -> KeyCode {
    KeyCode::Scancode { code: 0x0e, extended: false }
}

/// `n` presses of Backspace.
pub open spec fn backspaces(n: nat) -> Seq<SessionCommand>
    decreases n,
{
    if n == 0 {
        seq![]
    } else {
        backspaces((n - 1) as nat) + key_tap(backspace_key())
    }
}

/// One Unicode key press per character of `s`.
pub open spec fn typed(s: Seq<char>) -> Seq<SessionCommand>
    decreases s.len(),
{
    if s.len() == 0 {
        seq![]
    } else {
        typed(s.drop_last()) + key_tap(KeyCode::Unicode(s.last()))
    }
}

/// The length of the longest common prefix of `a` and `b`.
pub open spec fn common_prefix_len(a: Seq<char>, b: Seq<char>) -> nat
    decreases a.len(),
{
    if a.len() == 0 || b.len() == 0 || a[0] != b[0] {
        0
    } else {
        1 + common_prefix_len(a.drop_first(), b.drop_first())
    }
}

/// The key presses that turn the committed text `previous` into `next`: Backspace for each
/// character after their common prefix, then the rest of `next`.
pub open spec fn committed_keys(previous: Seq<char>, next: Seq<char>) -> Seq<SessionCommand> {
    let common = common_prefix_len(previous, next);
    backspaces((previous.len() - common) as nat) + typed(next.skip(common as int))
}

proof fn lemma_common_prefix(a: Seq<char>, b: Seq<char>)
    ensures
        common_prefix_len(a, b) <= a.len(),
        common_prefix_len(a, b) <= b.len(),
        forall|i: int| 0 <= i < common_prefix_len(a, b) ==> a[i] == b[i],
        common_prefix_len(a, b) < a.len() && common_prefix_len(a, b) < b.len() ==> a[common_prefix_len(
            a,
            b,
        ) as int] != b[common_prefix_len(a, b) as int],
    decreases a.len(),
{
    if !(a.len() == 0 || b.len() == 0 || a[0] != b[0]) {
        lemma_common_prefix(a.drop_first(), b.drop_first());
        assert forall|i: int| 0 <= i < common_prefix_len(a, b) implies a[i] == b[i] by {
            if i > 0 {
                assert(a.drop_first()[i - 1] == a[i]);
                assert(b.drop_first()[i - 1] == b[i]);
            }
        }
    }
}

proof fn lemma_common_prefix_from(a: Seq<char>, b: Seq<char>, k: int)
    requires
        0 <= k <= a.len(),
        k <= b.len(),
        forall|i: int| 0 <= i < k ==> a[i] == b[i],
        k == a.len() || k == b.len() || a[k] != b[k],
    ensures
        common_prefix_len(a, b) == k,
    decreases a.len(),
{
    if k > 0 {
        assert forall|i: int| 0 <= i < k - 1 implies a.drop_first()[i] == b.drop_first()[i] by {
            assert(a[i + 1] == b[i + 1]);
        }
        if k - 1 < a.len() - 1 && k - 1 < b.len() - 1 {
            assert(a.drop_first()[k - 1] == a[k]);
            assert(b.drop_first()[k - 1] == b[k]);
        }
        lemma_common_prefix_from(a.drop_first(), b.drop_first(), k - 1);
        assert(a[0] == b[0]);
    }
}

/// The key presses that turn the committed text `previous` into `next`, so that text the IME
/// has already committed is never sent twice.
pub fn committed_delta(previous: &str, next: &str) -> (r: Vec<SessionCommand>)
    ensures
        r@ == committed_keys(previous@, next@),
{
    let p = previous.unicode_len();
    let n = next.unicode_len();
    let mut common: usize = 0;
    while common < p && common < n && previous.get_char(common) == next.get_char(common)
        invariant
            p == previous@.len(),
            n == next@.len(),
            common <= p,
            common <= n,
            forall|i: int| 0 <= i < common ==> previous@[i] == next@[i],
        decreases p - common,
    {
        common = common + 1;
    }
    proof {
        lemma_common_prefix_from(previous@, next@, common as int);
    }
    let mut commands: Vec<SessionCommand> = Vec::new();
    let key = KeyCode::Scancode { code: 0x0e, extended: false };
    let mut i: usize = common;
    while i < p
        invariant
            p == previous@.len(),
            common <= i <= p,
            key == backspace_key(),
            commands@ == backspaces((i - common) as nat),
        decreases p - i,
    {
        commands.push(SessionCommand::KeyDown(key));
        commands.push(SessionCommand::KeyUp(key));
        proof {
            assert(backspaces((i + 1 - common) as nat) == backspaces((i - common) as nat) + key_tap(
                key,
            ));
        }
        i = i + 1;
    }
    let ghost removed = commands@;
    let mut j: usize = common;
    while j < n
        invariant
            n == next@.len(),
            common <= j <= n,
            commands@ == removed + typed(next@.subrange(common as int, j as int)),
        decreases n - j,
    {
        let ch = next.get_char(j);
        commands.push(SessionCommand::KeyDown(KeyCode::Unicode(ch)));
        commands.push(SessionCommand::KeyUp(KeyCode::Unicode(ch)));
        proof {
            let t = next@.subrange(common as int, j + 1);
            assert(t.drop_last() == next@.subrange(common as int, j as int));
            assert(t.last() == ch);
        }
        j = j + 1;
    }
    proof {
        assert(next@.subrange(common as int, n as int) == next@.skip(common as int));
    }
    commands
}

/// What a key command does to the text of a plain text field: a Backspace press erases the
/// last character, a Unicode key press types its character, anything else leaves it.
pub open spec fn edit_step(text: Seq<char>, command: SessionCommand) -> Seq<char> {
    match command {
        SessionCommand::KeyDown(KeyCode::Scancode { code: 0x0e, extended: false }) => if text.len()
            > 0 {
            text.drop_last()
        } else {
            text
        },
        SessionCommand::KeyDown(KeyCode::Unicode(c)) => text.push(c),
        _ => text,
    }
}

/// The text of a plain text field after a run of key commands.
pub open spec fn edited(text: Seq<char>, commands: Seq<SessionCommand>) -> Seq<char>
    decreases commands.len(),
{
    if commands.len() == 0 {
        text
    } else {
        edited(edit_step(text, commands[0]), commands.drop_first())
    }
}

proof fn lemma_edited_concat(text: Seq<char>, a: Seq<SessionCommand>, b: Seq<SessionCommand>)
    ensures
        edited(text, a + b) == edited(edited(text, a), b),
    decreases a.len(),
{
    if a.len() > 0 {
        assert((a + b).drop_first() =~= a.drop_first() + b);
        assert((a + b)[0] == a[0]);
        lemma_edited_concat(edit_step(text, a[0]), a.drop_first(), b);
    } else {
        assert(a + b =~= b);
    }
}

proof fn lemma_edited_tap(text: Seq<char>, k: KeyCode)
    ensures
        edited(text, key_tap(k)) == edit_step(text, SessionCommand::KeyDown(k)),
{
    let t = key_tap(k);
    let after = edit_step(text, SessionCommand::KeyDown(k));
    assert(t[0] == SessionCommand::KeyDown(k));
    assert(t.drop_first()[0] == SessionCommand::KeyUp(k));
    assert(t.drop_first().drop_first() =~= Seq::<SessionCommand>::empty());
    assert(edit_step(after, SessionCommand::KeyUp(k)) == after);
    assert(edited(after, t.drop_first().drop_first()) == after);
    assert(edited(after, t.drop_first()) == after);
}

proof fn lemma_edited_backspaces(text: Seq<char>, n: nat)
    requires
        n <= text.len(),
    ensures
        edited(text, backspaces(n)) == text.subrange(0, text.len() - n),
    decreases n,
{
    if n == 0 {
        assert(text.subrange(0, text.len() as int) =~= text);
    } else {
        lemma_edited_backspaces(text, (n - 1) as nat);
        lemma_edited_concat(text, backspaces((n - 1) as nat), key_tap(backspace_key()));
        let shorter = text.subrange(0, text.len() - (n - 1));
        lemma_edited_tap(shorter, backspace_key());
        assert(shorter.drop_last() =~= text.subrange(0, text.len() - n));
    }
}

proof fn lemma_edited_typed(text: Seq<char>, s: Seq<char>)
    ensures
        edited(text, typed(s)) == text + s,
    decreases s.len(),
{
    if s.len() == 0 {
        assert(text + s =~= text);
    } else {
        lemma_edited_typed(text, s.drop_last());
        lemma_edited_concat(text, typed(s.drop_last()), key_tap(KeyCode::Unicode(s.last())));
        lemma_edited_tap(text + s.drop_last(), KeyCode::Unicode(s.last()));
        assert((text + s.drop_last()).push(s.last()) =~= text + s);
    }
}

/// Committed text is never typed twice: the key presses for a commit turn the text committed
/// before into exactly the text committed now.
pub proof fn law_committed_keys_reproduce_text(previous: Seq<char>, next: Seq<char>)
    ensures
        edited(previous, committed_keys(previous, next)) == next,
{
    lemma_common_prefix(previous, next);
    let common = common_prefix_len(previous, next);
    let k = (previous.len() - common) as nat;
    lemma_edited_concat(previous, backspaces(k), typed(next.skip(common as int)));
    lemma_edited_backspaces(previous, k);
    lemma_edited_typed(previous.subrange(0, common as int), next.skip(common as int));
    assert(previous.subrange(0, common as int) =~= next.subrange(0, common as int));
    assert(next.subrange(0, common as int) + next.skip(common as int) =~= next);
}

/// Whether `c` is one of the special keys that the UI toolkit sends as a control or private-use
/// character: a function key, an editing or navigation key, an arrow or a modifier.
pub open spec fn is_special_key(c: char) -> bool {
    ||| (KEY_F1 <= c && c <= KEY_F12)
    ||| c == KEY_RETURN
    ||| c == KEY_TAB
    ||| c == KEY_BACKSPACE
    ||| c == KEY_ESCAPE
    ||| c == KEY_CONTROL
    ||| c == KEY_SHIFT
    ||| c == KEY_ALT
    ||| c == KEY_META
    ||| c == KEY_LEFT_ARROW
    ||| c == KEY_RIGHT_ARROW
    ||| c == KEY_UP_ARROW
    ||| c == KEY_DOWN_ARROW
    ||| c == KEY_DELETE
    ||| c == KEY_HOME
    ||| c == KEY_END
    ||| c == KEY_PAGE_UP
    ||| c == KEY_PAGE_DOWN
}

/// Every special key reaches the remote desktop as a scancode, and two different special keys
/// never as the same one: no key stands in for another.
pub proof fn law_special_keys_distinct(a: char, b: char)
    requires
        is_special_key(a),
        is_special_key(b),
    ensures
        key_for_char(a) matches Some(KeyCode::Scancode { .. }),
        key_for_char(a) == key_for_char(b) ==> a == b,
{
}

/// The arrows are sent as the extended scancodes of the numeric keypad's 8, 4, 6 and 2: up
/// 0x48, left 0x4b, right 0x4d and down 0x50.
pub proof fn law_arrow_scancodes()
    ensures
        key_for_char(KEY_UP_ARROW) == Some(KeyCode::Scancode { code: 0x48, extended: true }),
        key_for_char(KEY_LEFT_ARROW) == Some(KeyCode::Scancode { code: 0x4b, extended: true }),
        key_for_char(KEY_RIGHT_ARROW) == Some(KeyCode::Scancode { code: 0x4d, extended: true }),
        key_for_char(KEY_DOWN_ARROW) == Some(KeyCode::Scancode { code: 0x50, extended: true }),
{
}

/// The function keys are sent as their scancodes: F1 to F10 as the consecutive codes from 0x3b,
/// F11 and F12 as 0x57 and 0x58, none of them extended.
pub proof fn law_function_key_scancodes(c: char)
    requires
        KEY_F1 <= c <= KEY_F12,
    ensures
        (c as int) - (KEY_F1 as int) < 10 ==> key_for_char(c) == Some(
            KeyCode::Scancode { code: (0x3b + (c as int - KEY_F1 as int)) as u8, extended: false },
        ),
        (c as int) - (KEY_F1 as int) == 10 ==> key_for_char(c) == Some(
            KeyCode::Scancode { code: 0x57, extended: false },
        ),
        c == KEY_F12 ==> key_for_char(c) == Some(KeyCode::Scancode { code: 0x58, extended: false }),
{
}

} // verus!
