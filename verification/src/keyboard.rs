//! The keys held on the remote desktop while a session runs: the keys pressed through the
//! keyboard (and the modifiers synchronized with them) and the modifiers latched by the
//! on-screen buttons, with the key commands that each key event becomes.

use vstd::prelude::*;
use vstd::string::*;

use crate::input::KeyCode;
use crate::keys::{committed_keys, key_code, key_for_text, key_tap, shortcut_for_text, shortcut_key};
use crate::session::SessionCommand;
use crate::text::strings_equal;

verus! {

/// The map that a list of named keys stands for.
pub open spec fn entries_map(s: Seq<(String, KeyCode)>) -> Map<Seq<char>, KeyCode>
    decreases s.len(),
{
    if s.len() == 0 {
        Map::empty()
    } else {
        entries_map(s.drop_last()).insert(s.last().0@, s.last().1)
    }
}

/// No name occurs twice in the list.
pub open spec fn names_distinct(s: Seq<(String, KeyCode)>) -> bool {
    forall|i: int, j: int| 0 <= i < j < s.len() ==> s[i].0@ != s[j].0@
}

proof fn lemma_entries_map(s: Seq<(String, KeyCode)>)
    requires
        names_distinct(s),
    ensures
        forall|k: Seq<char>|
            #[trigger] entries_map(s).contains_key(k) <==> exists|i: int|
                0 <= i < s.len() && s[i].0@ == k,
        forall|i: int|
            0 <= i < s.len() ==> entries_map(s).contains_key(#[trigger] s[i].0@) && entries_map(s)[s[i].0@]
                == s[i].1,
    decreases s.len(),
{
    if s.len() > 0 {
        let t = s.drop_last();
        assert(names_distinct(t));
        lemma_entries_map(t);
        assert forall|k: Seq<char>| #[trigger] entries_map(s).contains_key(k) implies exists|i: int|
            0 <= i < s.len() && s[i].0@ == k by {
            if k != s.last().0@ {
                assert(entries_map(t).contains_key(k));
                let i = choose|i: int| 0 <= i < t.len() && t[i].0@ == k;
                assert(s[i] == t[i]);
            } else {
                assert(s[s.len() - 1].0@ == k);
            }
        }
        assert forall|i: int| 0 <= i < s.len() implies entries_map(s).contains_key(#[trigger] s[i].0@)
            && entries_map(s)[s[i].0@] == s[i].1 by {
            if i < s.len() - 1 {
                assert(s[i] == t[i]);
                assert(s[i].0@ != s[s.len() - 1].0@);
            }
        }
    }
}

fn find_entry(v: &Vec<(String, KeyCode)>, name: &str) -> (r: Option<usize>)
    ensures
        r matches Some(i) ==> i < v@.len() && v@[i as int].0@ == name@,
        r is None ==> forall|i: int| 0 <= i < v@.len() ==> v@[i].0@ != name@,
{
    let n = v.len();
    let mut i: usize = 0;
    while i < n
        invariant
            n == v@.len(),
            i <= n,
            forall|j: int| 0 <= j < i ==> v@[j].0@ != name@,
        decreases n - i,
    {
        if strings_equal(v[i].0.as_str(), name) {
            return Some(i);
        }
        i = i + 1;
    }
    None
}

/// Files `key` under `name`, replacing the key filed there before, which it returns.
fn map_insert(v: &mut Vec<(String, KeyCode)>, name: String, key: KeyCode) -> (r: Option<KeyCode>)
    requires
        names_distinct(old(v)@),
    ensures
        names_distinct(final(v)@),
        entries_map(final(v)@) == entries_map(old(v)@).insert(name@, key),
        entries_map(old(v)@).contains_key(name@) ==> r == Some(entries_map(old(v)@)[name@]),
        !entries_map(old(v)@).contains_key(name@) ==> r is None,
{
    proof {
        lemma_entries_map(v@);
    }
    match find_entry(v, name.as_str()) {
        Some(i) => {
            let previous = v[i].1;
            let ghost before = v@;
            let ghost n = name@;
            v.set(i, (name, key));
            proof {
                assert(names_distinct(v@)) by {
                    assert forall|a: int, b: int| 0 <= a < b < v@.len() implies v@[a].0@ != v@[b].0@ by {
                        if a != i && b != i {
                            assert(v@[a] == before[a] && v@[b] == before[b]);
                        } else if a == i {
                            assert(v@[b] == before[b]);
                        } else {
                            assert(v@[a] == before[a]);
                        }
                    }
                }
                lemma_entries_map(v@);
                assert(entries_map(v@) =~= entries_map(before).insert(n, key)) by {
                    assert forall|k: Seq<char>| #[trigger] entries_map(v@).contains_key(k)
                        <==> entries_map(before).insert(n, key).contains_key(k) by {
                        if k == n {
                            assert(v@[i as int].0@ == n);
                        }
                        if entries_map(v@).contains_key(k) {
                            let j = choose|j: int| 0 <= j < v@.len() && v@[j].0@ == k;
                            if j != i {
                                assert(v@[j] == before[j]);
                            }
                        }
                        if entries_map(before).contains_key(k) && k != n {
                            let j = choose|j: int| 0 <= j < before.len() && before[j].0@ == k;
                            assert(v@[j] == before[j]);
                        }
                    }
                    assert forall|k: Seq<char>| #[trigger] entries_map(v@).contains_key(k) implies entries_map(
                        v@,
                    )[k] == entries_map(before).insert(n, key)[k] by {
                        let j = choose|j: int| 0 <= j < v@.len() && v@[j].0@ == k;
                        if j != i {
                            assert(v@[j] == before[j]);
                        }
                    }
                }
            }
            Some(previous)
        },
        None => {
            let ghost before = v@;
            v.push((name, key));
            proof {
                assert(v@.drop_last() =~= before);
                assert(names_distinct(v@)) by {
                    assert forall|a: int, b: int| 0 <= a < b < v@.len() implies v@[a].0@ != v@[b].0@ by {
                        assert(v@[a] == before[a]);
                        if b < before.len() {
                            assert(v@[b] == before[b]);
                        }
                    }
                }
                if entries_map(before).contains_key(name@) {
                    let j = choose|j: int| 0 <= j < before.len() && before[j].0@ == name@;
                }
            }
            None
        },
    }
}

/// Takes the key filed under `name` out, returning it.
fn map_remove(v: &mut Vec<(String, KeyCode)>, name: &str) -> (r: Option<KeyCode>)
    requires
        names_distinct(old(v)@),
    ensures
        names_distinct(final(v)@),
        entries_map(final(v)@) == entries_map(old(v)@).remove(name@),
        entries_map(old(v)@).contains_key(name@) ==> r == Some(entries_map(old(v)@)[name@]),
        !entries_map(old(v)@).contains_key(name@) ==> r is None,
{
    proof {
        lemma_entries_map(v@);
    }
    match find_entry(v, name) {
        Some(i) => {
            let ghost before = v@;
            let (_, key) = v.remove(i);
            proof {
                assert(v@ =~= before.remove(i as int));
                assert(names_distinct(v@)) by {
                    assert forall|a: int, b: int| 0 <= a < b < v@.len() implies v@[a].0@ != v@[b].0@ by {
                        let a0 = if a < i { a } else { a + 1 };
                        let b0 = if b < i { b } else { b + 1 };
                        assert(v@[a] == before[a0] && v@[b] == before[b0]);
                    }
                }
                lemma_entries_map(v@);
                assert(entries_map(v@) =~= entries_map(before).remove(name@)) by {
                    assert forall|k: Seq<char>| #[trigger] entries_map(v@).contains_key(k)
                        <==> entries_map(before).remove(name@).contains_key(k) by {
                        if entries_map(v@).contains_key(k) {
                            let j = choose|j: int| 0 <= j < v@.len() && v@[j].0@ == k;
                            let j0 = if j < i { j } else { j + 1 };
                            assert(v@[j] == before[j0]);
                        }
                        if entries_map(before).contains_key(k) && k != name@ {
                            let j = choose|j: int| 0 <= j < before.len() && before[j].0@ == k;
                            assert(j != i);
                            let j1 = if j < i { j } else { j - 1 };
                            assert(v@[j1] == before[j]);
                        }
                    }
                    assert forall|k: Seq<char>| #[trigger] entries_map(v@).contains_key(k) implies entries_map(
                        v@,
                    )[k] == entries_map(before).remove(name@)[k] by {
                        let j = choose|j: int| 0 <= j < v@.len() && v@[j].0@ == k;
                        let j0 = if j < i { j } else { j + 1 };
                        assert(v@[j] == before[j0]);
                    }
                }
            }
            Some(key)
        },
        None => {
            proof {
                assert(entries_map(v@) =~= entries_map(v@).remove(name@));
            }
            None
        },
    }
}

/// A key that holds a modifier: Control, Alt or the Windows key.
pub open spec fn is_modifier_key(k: KeyCode) -> bool {
    k matches KeyCode::Scancode { code, .. } && (code == 0x1d || code == 0x38 || code == 0x5b)
}

/// The prefix of the names under which synchronized modifiers are kept.
pub open spec fn token_prefix() -> Seq<char> {
    "modifier:"@
}

/// Whether a pressed-key name is the name of a synchronized modifier.
pub open spec fn is_token(name: Seq<char>) -> bool {
    name.len() >= token_prefix().len() && name.subrange(0, token_prefix().len() as int)
        == token_prefix()
}

/// Whether a modifier is held: a modifier key pressed under its own name (synchronized
/// modifiers are skipped when `skip_tokens`), or a latched modifier.
pub open spec fn modifier_held(
    pressed: Map<Seq<char>, KeyCode>,
    latched: Map<Seq<char>, KeyCode>,
    skip_tokens: bool,
) -> bool {
    ||| exists|n: Seq<char>|
        #[trigger] pressed.contains_key(n) && !(skip_tokens && is_token(n)) && is_modifier_key(
            pressed[n],
        )
    ||| exists|n: Seq<char>| #[trigger] latched.contains_key(n) && is_modifier_key(latched[n])
}

/// Brings one modifier, kept under `token_prefix() + name`, in line with whether the event
/// says it is held, adding the command that does so.
pub open spec fn sync_modifier(
    state: (Map<Seq<char>, KeyCode>, Seq<SessionCommand>),
    name: Seq<char>,
    enabled: bool,
    key: KeyCode,
) -> (Map<Seq<char>, KeyCode>, Seq<SessionCommand>) {
    let (p, cmds) = state;
    let token = token_prefix() + name;
    if enabled && !p.contains_key(token) {
        (p.insert(token, key), cmds.push(SessionCommand::KeyDown(key)))
    } else if !enabled && p.contains_key(token) {
        (p.remove(token), cmds.push(SessionCommand::KeyUp(p[token])))
    } else {
        (p, cmds)
    }
}

/// What a key event of a connected session does: whether it is handled, the pressed keys
/// after it, and the commands it sends. A release sends the release of the key pressed under
/// that text. A press maps the text (as a shortcut letter while a modifier is held), brings
/// Control, Alt, Shift and the Windows key in line with the event, releases a key still held
/// under the same text and presses the new one.
pub open spec fn key_event_outcome(
    pressed: Map<Seq<char>, KeyCode>,
    latched: Map<Seq<char>, KeyCode>,
    text: Seq<char>,
    down: bool,
    ctrl: bool,
    alt: bool,
    shift: bool,
    meta: bool,
) -> (bool, Map<Seq<char>, KeyCode>, Seq<SessionCommand>) {
    if !down {
        if pressed.contains_key(text) {
            (true, pressed.remove(text), seq![SessionCommand::KeyUp(pressed[text])])
        } else {
            (true, pressed, seq![])
        }
    } else {
        let mapped = if ctrl || alt || meta || modifier_held(pressed, latched, true) {
            shortcut_for_text(text)
        } else {
            key_for_text(text)
        };
        match mapped {
            None => (false, pressed, seq![]),
            Some(k) => {
                let s1 = sync_modifier(
                    (pressed, seq![]),
                    "Control"@,
                    ctrl,
                    KeyCode::Scancode { code: 0x1d, extended: false },
                );
                let s2 = sync_modifier(s1, "Alt"@, alt, KeyCode::Scancode { code: 0x38, extended: false });
                let s3 = sync_modifier(
                    s2,
                    "Shift"@,
                    shift,
                    KeyCode::Scancode { code: 0x2a, extended: false },
                );
                let s4 = sync_modifier(s3, "Meta"@, meta, KeyCode::Scancode { code: 0x5b, extended: true });
                let released = if s4.0.contains_key(text) {
                    s4.1.push(SessionCommand::KeyUp(s4.0[text]))
                } else {
                    s4.1
                };
                (true, s4.0.insert(text, k), released.push(SessionCommand::KeyDown(k)))
            },
        }
    }
}

/// A handled key press ends with the press of its key, and the release of the same text then
/// releases exactly that key and forgets it.
pub proof fn law_release_matches_press(
    pressed: Map<Seq<char>, KeyCode>,
    latched: Map<Seq<char>, KeyCode>,
    text: Seq<char>,
    ctrl: bool,
    alt: bool,
    shift: bool,
    meta: bool,
)
    requires
        key_event_outcome(pressed, latched, text, true, ctrl, alt, shift, meta).0,
    ensures
        ({
            let (_, after, commands) = key_event_outcome(pressed, latched, text, true, ctrl, alt, shift, meta);
            &&& commands.len() > 0
            &&& commands.last() matches SessionCommand::KeyDown(k)
            &&& after.contains_key(text) && after[text] == k
            &&& key_event_outcome(after, latched, text, false, ctrl, alt, shift, meta) == (
                true,
                after.remove(text),
                seq![SessionCommand::KeyUp(k)],
            )
        }),
{
}

/// The key of an on-screen special-key button.
pub open spec fn special_key_for(name: Seq<char>) -> KeyCode {
    if name == "Escape"@ {
        KeyCode::Scancode { code: 0x01, extended: false }
    } else if name == "Tab"@ {
        KeyCode::Scancode { code: 0x0f, extended: false }
    } else if name == "Control"@ {
        KeyCode::Scancode { code: 0x1d, extended: false }
    } else if name == "Alt"@ {
        KeyCode::Scancode { code: 0x38, extended: false }
    } else if name == "Meta"@ {
        KeyCode::Scancode { code: 0x5b, extended: true }
    } else {
        KeyCode::Scancode { code: 0x1c, extended: false }
    }
}

/// Whether an on-screen button latches its key rather than tapping it.
pub open spec fn latches(name: Seq<char>) -> bool {
    name == "Control"@ || name == "Alt"@ || name == "Meta"@
}

/// What an on-screen special-key button does.
#[derive(Clone, Copy, Debug, PartialEq, Eq, Structural)]
pub enum SpecialKeyAction {
    /// Press and release the key.
    Tap(KeyCode),
    /// Press the key; it stays latched once the press was sent (`KeyboardState::latch`).
    Press(KeyCode),
    /// Release the latched key; it is no longer latched.
    Release(KeyCode),
}

/// One key press per character of `s` that maps to a shortcut key.
pub open spec fn shortcut_taps(s: Seq<char>) -> Seq<SessionCommand>
    decreases s.len(),
{
    if s.len() == 0 {
        seq![]
    } else {
        shortcut_taps(s.drop_last()) + match shortcut_for_text(seq![s.last()]) {
            Some(k) => key_tap(k),
            None => seq![],
        }
    }
}

/// The characters of `next` after the first `n`.
pub open spec fn after_count(next: Seq<char>, n: nat) -> Seq<char> {
    if n >= next.len() {
        seq![]
    } else {
        next.subrange(n as int, next.len() as int)
    }
}

/// The keys held on the remote desktop for the current session.
pub struct KeyboardState {
    pressed: Vec<(String, KeyCode)>,
    latched: Vec<(String, KeyCode)>,
}

impl KeyboardState {
    #[verifier::type_invariant]
    spec fn distinct(self) -> bool {
        names_distinct(self.pressed@) && names_distinct(self.latched@)
    }

    /// The keys pressed through the keyboard, by key text (synchronized modifiers under
    /// `token_prefix()` and their name).
    pub closed spec fn pressed(self) -> Map<Seq<char>, KeyCode> {
        entries_map(self.pressed@)
    }

    /// The modifiers latched by the on-screen buttons, by button name.
    pub closed spec fn latched(self) -> Map<Seq<char>, KeyCode> {
        entries_map(self.latched@)
    }

    pub fn new() -> (r: Self)
        ensures
            r.pressed() == Map::<Seq<char>, KeyCode>::empty(),
            r.latched() == Map::<Seq<char>, KeyCode>::empty(),
    {
        KeyboardState { pressed: Vec::new(), latched: Vec::new() }
    }

    /// Forgets every held key, as when the session's inputs are released.
    pub fn clear(&mut self)
        ensures
            final(self).pressed() == Map::<Seq<char>, KeyCode>::empty(),
            final(self).latched() == Map::<Seq<char>, KeyCode>::empty(),
    {
        *self = KeyboardState::new();
    }

    /// Whether no modifier is latched.
    pub fn latched_is_empty(&self) -> (r: bool)
        ensures
            r == (self.latched().dom() == Set::<Seq<char>>::empty()),
    {
        proof {
            use_type_invariant(self);
            lemma_entries_map(self.latched@);
            if self.latched@.len() > 0 {
                assert(self.latched().contains_key(self.latched@[0].0@));
            } else {
                assert(self.latched().dom() =~= Set::<Seq<char>>::empty());
            }
        }
        self.latched.len() == 0
    }
}

fn is_token_text(name: &str) -> (r: bool)
    ensures
        r == is_token(name@),
{
    let prefix = "modifier:";
    proof {
        reveal_strlit("modifier:");
    }
    let m = prefix.unicode_len();
    let n = name.unicode_len();
    if n < m {
        return false;
    }
    let mut i: usize = 0;
    while i < m
        invariant
            m == prefix@.len(),
            prefix@ == token_prefix(),
            m <= n,
            n == name@.len(),
            i <= m,
            forall|j: int| 0 <= j < i ==> name@[j] == prefix@[j],
        decreases m - i,
    {
        if name.get_char(i) != prefix.get_char(i) {
            proof {
                assert(name@.subrange(0, m as int)[i as int] != token_prefix()[i as int]);
            }
            return false;
        }
        i = i + 1;
    }
    proof {
        assert(name@.subrange(0, m as int) =~= token_prefix());
    }
    true
}

fn has_modifier(v: &Vec<(String, KeyCode)>, skip_tokens: bool) -> (r: bool)
    requires
        names_distinct(v@),
    ensures
        r == exists|n: Seq<char>|
            #[trigger] entries_map(v@).contains_key(n) && !(skip_tokens && is_token(n))
                && is_modifier_key(entries_map(v@)[n]),
{
    proof {
        lemma_entries_map(v@);
    }
    let n = v.len();
    let mut i: usize = 0;
    while i < n
        invariant
            n == v@.len(),
            i <= n,
            names_distinct(v@),
            forall|j: int|
                0 <= j < i ==> !(!(skip_tokens && is_token(#[trigger] v@[j].0@)) && is_modifier_key(
                    v@[j].1,
                )),
        decreases n - i,
    {
        let held = match v[i].1 {
            KeyCode::Scancode { code, .. } => code == 0x1d || code == 0x38 || code == 0x5b,
            KeyCode::Unicode(_) => false,
        };
        if held && !(skip_tokens && is_token_text(v[i].0.as_str())) {
            proof {
                lemma_entries_map(v@);
                let k = v@[i as int].0@;
                assert(entries_map(v@).contains_key(k) && entries_map(v@)[k] == v@[i as int].1);
            }
            return true;
        }
        i = i + 1;
    }
    proof {
        lemma_entries_map(v@);
        assert forall|k: Seq<char>| #[trigger] entries_map(v@).contains_key(k) implies !(!(skip_tokens
            && is_token(k)) && is_modifier_key(entries_map(v@)[k])) by {
            let j = choose|j: int| 0 <= j < v@.len() && v@[j].0@ == k;
            assert(v@[j].0@ == k);
        }
    }
    false
}

fn sync_modifier_key(
    pressed: &mut Vec<(String, KeyCode)>,
    commands: &mut Vec<SessionCommand>,
    name: &str,
    enabled: bool,
    key: KeyCode,
)
    requires
        names_distinct(old(pressed)@),
    ensures
        names_distinct(final(pressed)@),
        (entries_map(final(pressed)@), final(commands)@) == sync_modifier(
            (entries_map(old(pressed)@), old(commands)@),
            name@,
            enabled,
            key,
        ),
{
    let mut token = String::from_str("modifier:");
    token.append(name);
    proof {
        assert(token@ == token_prefix() + name@);
        lemma_entries_map(pressed@);
    }
    let held = find_entry(pressed, token.as_str()).is_some();
    proof {
        if held {
            let i = choose|i: int| 0 <= i < pressed@.len() && pressed@[i].0@ == token@;
        }
        assert(held == entries_map(pressed@).contains_key(token@));
    }
    if enabled && !held {
        let _ = map_insert(pressed, token, key);
        commands.push(SessionCommand::KeyDown(key));
    } else if !enabled && held {
        let released = map_remove(pressed, token.as_str());
        match released {
            Some(k) => commands.push(SessionCommand::KeyUp(k)),
            None => {},
        }
    }
}

impl KeyboardState {
    /// Whether a modifier is held (skipping synchronized modifiers when `skip_tokens`).
    fn modifier_is_held(&self, skip_tokens: bool) -> (r: bool)
        ensures
            r == modifier_held(self.pressed(), self.latched(), skip_tokens),
    {
        proof {
            use_type_invariant(self);
        }
        let a = has_modifier(&self.pressed, skip_tokens);
        let b = has_modifier(&self.latched, false);
        a || b
    }

    /// Whether a key is held under this text.
    pub fn is_pressed(&self, text: &str) -> (r: bool)
        ensures
            r == self.pressed().contains_key(text@),
    {
        proof {
            use_type_invariant(self);
            lemma_entries_map(self.pressed@);
        }
        let found = find_entry(&self.pressed, text);
        proof {
            if found is Some {
                let i = choose|i: int| 0 <= i < self.pressed@.len() && self.pressed@[i].0@ == text@;
            }
        }
        found.is_some()
    }

    /// Handles a key event of the keyboard: whether it is handled, and the commands to send.
    /// Nothing is handled while no session is connected.
    pub fn key_event(
        &mut self,
        text: &str,
        down: bool,
        ctrl: bool,
        alt: bool,
        shift: bool,
        meta: bool,
        connected: bool,
    ) -> (r: (bool, Vec<SessionCommand>))
        ensures
            final(self).latched() == old(self).latched(),
            !connected ==> !r.0 && r.1@.len() == 0 && final(self).pressed() == old(self).pressed(),
            connected ==> (r.0, final(self).pressed(), r.1@) == key_event_outcome(
                old(self).pressed(),
                old(self).latched(),
                text@,
                down,
                ctrl,
                alt,
                shift,
                meta,
            ),
    {
        proof {
            use_type_invariant(&*self);
        }
        let mut commands: Vec<SessionCommand> = Vec::new();
        if !connected {
            return (false, commands);
        }
        if !down {
            let mut pressed: Vec<(String, KeyCode)> = Vec::new();
            std::mem::swap(&mut pressed, &mut self.pressed);
            let released = map_remove(&mut pressed, text);
            self.pressed = pressed;
            if let Some(key) = released {
                commands.push(SessionCommand::KeyUp(key));
            }
            return (true, commands);
        }
        let shortcut = ctrl || alt || meta || self.modifier_is_held(true);
        let mapped = if shortcut {
            shortcut_key(text)
        } else {
            key_code(text)
        };
        let key = match mapped {
            Some(k) => k,
            None => {
                return (false, commands);
            },
        };
        let mut pressed: Vec<(String, KeyCode)> = Vec::new();
        std::mem::swap(&mut pressed, &mut self.pressed);
        sync_modifier_key(
            &mut pressed,
            &mut commands,
            "Control",
            ctrl,
            KeyCode::Scancode { code: 0x1d, extended: false },
        );
        sync_modifier_key(
            &mut pressed,
            &mut commands,
            "Alt",
            alt,
            KeyCode::Scancode { code: 0x38, extended: false },
        );
        sync_modifier_key(
            &mut pressed,
            &mut commands,
            "Shift",
            shift,
            KeyCode::Scancode { code: 0x2a, extended: false },
        );
        sync_modifier_key(
            &mut pressed,
            &mut commands,
            "Meta",
            meta,
            KeyCode::Scancode { code: 0x5b, extended: true },
        );
        let previous = map_insert(&mut pressed, crate::text::owned(text), key);
        if let Some(old_key) = previous {
            commands.push(SessionCommand::KeyUp(old_key));
        }
        commands.push(SessionCommand::KeyDown(key));
        self.pressed = pressed;
        (true, commands)
    }

    /// Whether a key event of the input-method field goes to the remote desktop as a key
    /// (rather than as committed text): a special key, a held modifier, or a key held under the
    /// same text.
    pub fn ime_special(&self, text: &str, ctrl: bool, alt: bool, meta: bool) -> (r: bool)
        ensures
            r == (key_for_text(text@) matches Some(KeyCode::Scancode { .. }) || ctrl || alt || meta
                || modifier_held(self.pressed(), self.latched(), false) || self.pressed().contains_key(
                text@,
            )),
    {
        let scancode = match key_code(text) {
            Some(KeyCode::Scancode { .. }) => true,
            _ => false,
        };
        scancode || ctrl || alt || meta || self.modifier_is_held(false) || self.is_pressed(text)
    }

    /// What an on-screen special-key button does; a latched modifier is released at once.
    pub fn special_key(&mut self, name: &str) -> (r: SpecialKeyAction)
        ensures
            final(self).pressed() == old(self).pressed(),
            latches(name@) && old(self).latched().contains_key(name@) ==> r == SpecialKeyAction::Release(
                special_key_for(name@),
            ) && final(self).latched() == old(self).latched().remove(name@),
            latches(name@) && !old(self).latched().contains_key(name@) ==> r == SpecialKeyAction::Press(
                special_key_for(name@),
            ) && final(self).latched() == old(self).latched(),
            !latches(name@) ==> r == SpecialKeyAction::Tap(special_key_for(name@))
                && final(self).latched() == old(self).latched(),
    {
        proof {
            use_type_invariant(&*self);
        }
        let key = if strings_equal(name, "Escape") {
            KeyCode::Scancode { code: 0x01, extended: false }
        } else if strings_equal(name, "Tab") {
            KeyCode::Scancode { code: 0x0f, extended: false }
        } else if strings_equal(name, "Control") {
            KeyCode::Scancode { code: 0x1d, extended: false }
        } else if strings_equal(name, "Alt") {
            KeyCode::Scancode { code: 0x38, extended: false }
        } else if strings_equal(name, "Meta") {
            KeyCode::Scancode { code: 0x5b, extended: true }
        } else {
            KeyCode::Scancode { code: 0x1c, extended: false }
        };
        let latching = strings_equal(name, "Control") || strings_equal(name, "Alt") || strings_equal(
            name,
            "Meta",
        );
        if !latching {
            return SpecialKeyAction::Tap(key);
        }
        let mut latched: Vec<(String, KeyCode)> = Vec::new();
        std::mem::swap(&mut latched, &mut self.latched);
        let removed = map_remove(&mut latched, name);
        self.latched = latched;
        match removed {
            Some(_) => SpecialKeyAction::Release(key),
            None => SpecialKeyAction::Press(key),
        }
    }

    /// Latches a modifier whose press was sent.
    pub fn latch(&mut self, name: &str, key: KeyCode)
        ensures
            final(self).pressed() == old(self).pressed(),
            final(self).latched() == old(self).latched().insert(name@, key),
    {
        proof {
            use_type_invariant(&*self);
        }
        let mut latched: Vec<(String, KeyCode)> = Vec::new();
        std::mem::swap(&mut latched, &mut self.latched);
        let _ = map_insert(&mut latched, crate::text::owned(name), key);
        self.latched = latched;
    }

    /// The commands for text the input method committed, `next`, after it had committed
    /// `previous`: the key presses that turn one into the other, or, while a modifier is
    /// latched, a shortcut press for each new character.
    pub fn committed_commands(&self, previous: &str, next: &str) -> (r: Vec<SessionCommand>)
        ensures
            self.latched().dom() == Set::<Seq<char>>::empty() ==> r@ == committed_keys(
                previous@,
                next@,
            ),
            self.latched().dom() != Set::<Seq<char>>::empty() ==> r@ == shortcut_taps(
                after_count(next@, previous@.len()),
            ),
    {
        if self.latched_is_empty() {
            return crate::keys::committed_delta(previous, next);
        }
        let skip = previous.unicode_len();
        let n = next.unicode_len();
        let mut out: Vec<SessionCommand> = Vec::new();
        if skip >= n {
            return out;
        }
        let ghost rest = next@.subrange(skip as int, n as int);
        let mut i: usize = skip;
        while i < n
            invariant
                skip < n,
                n == next@.len(),
                rest == next@.subrange(skip as int, n as int),
                skip <= i <= n,
                out@ == shortcut_taps(rest.subrange(0, i - skip)),
            decreases n - i,
        {
            let c = next.get_char(i);
            let mut one = String::new();
            crate::text::push_char(&mut one, c);
            proof {
                let t = rest.subrange(0, i + 1 - skip);
                assert(t.drop_last() =~= rest.subrange(0, i - skip));
                assert(t.last() == c);
                assert(one@ =~= seq![c]);
            }
            match shortcut_key(one.as_str()) {
                Some(k) => {
                    out.push(SessionCommand::KeyDown(k));
                    out.push(SessionCommand::KeyUp(k));
                },
                None => {},
            }
            proof {
                let t = rest.subrange(0, i + 1 - skip);
                assert(out@ =~= shortcut_taps(t.drop_last()) + match shortcut_for_text(seq![t.last()]) {
                    Some(k) => key_tap(k),
                    None => seq![],
                });
            }
            i = i + 1;
        }
        proof {
            assert(rest.subrange(0, n - skip) =~= rest);
        }
        out
    }
}

} // verus!
