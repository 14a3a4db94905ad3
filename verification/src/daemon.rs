use vstd::prelude::*;

verus! {

use crate::keys::Modifier;
use crate::keys::modifier_of_key;
use crate::keys::spec_modifier_of_key;

// ---------------------------------------------------------------------------
// Per-device key state
// ---------------------------------------------------------------------------

/// What one grabbed device currently holds: the modifiers and the
/// ordinary keysyms whose presses have not yet been released. Both are
/// sets — pressing a held key again changes nothing.
pub struct KeyboardState {
    pub state_modifiers: Vec<Modifier>,
    pub state_keysyms: Vec<u16>,
}

/// The model of a device's key state.
#[verifier::ext_equal]
pub struct KbView {
    pub mods: Seq<Modifier>,
    pub keys: Seq<u16>,
}

impl View for KeyboardState {
    type V = KbView;

    open spec fn view(&self) -> KbView {
        KbView { mods: self.state_modifiers@, keys: self.state_keysyms@ }
    }
}

pub open spec fn no_dup<A>(s: Seq<A>) -> bool {
    forall|i: int, j: int| 0 <= i < j < s.len() ==> s[i] != s[j]
}

impl KbView {
    /// Both member lists are duplicate-free, so they stand for sets.
    pub open spec fn wf(self) -> bool {
        no_dup(self.mods) && no_dup(self.keys)
    }
}

/// Insertion into a duplicate-free sequence: a no-op when the element is
/// already there.
pub open spec fn seq_insert<A>(s: Seq<A>, x: A) -> Seq<A> {
    if s.contains(x) {
        s
    } else {
        s.push(x)
    }
}

/// Removal from a sequence: every occurrence goes.
pub open spec fn seq_remove<A>(s: Seq<A>, x: A) -> Seq<A>
    decreases s.len(),
{
    if s.len() == 0 {
        s
    } else {
        let p = seq_remove(s.drop_last(), x);
        if s.last() == x {
            p
        } else {
            p.push(s.last())
        }
    }
}

/// The state after a press of `code`: the key's modifier joins the
/// modifier set, or the code joins the keysym set.
pub open spec fn spec_press(kb: KbView, code: u16) -> KbView {
    match spec_modifier_of_key(code) {
        Some(m) => KbView { mods: seq_insert(kb.mods, m), ..kb },
        None => KbView { keys: seq_insert(kb.keys, code), ..kb },
    }
}

/// The state after a release of `code`: the key's modifier leaves the
/// modifier set, or the code leaves the keysym set.
pub open spec fn spec_state_release(kb: KbView, code: u16) -> KbView {
    match spec_modifier_of_key(code) {
        Some(m) => KbView { mods: seq_remove(kb.mods, m), ..kb },
        None => KbView { keys: seq_remove(kb.keys, code), ..kb },
    }
}

pub proof fn lemma_insert_props<A>(s: Seq<A>, x: A)
    requires
        no_dup(s),
    ensures
        no_dup(seq_insert(s, x)),
        seq_insert(s, x).to_set() == s.to_set().insert(x),
        seq_insert(s, x).contains(x),
        forall|y: A| #[trigger] seq_insert(s, x).contains(y) <==> (s.contains(y) || y == x),
{
    broadcast use vstd::seq_lib::group_seq_properties;

    if s.contains(x) {
        assert(seq_insert(s, x).to_set() =~= s.to_set().insert(x));
    } else {
        assert forall|y: A| #[trigger] s.push(x).contains(y) implies (s.contains(y) || y == x) by {
            let i = choose|i: int| 0 <= i < s.push(x).len() && s.push(x)[i] == y;
            if i < s.len() {
                assert(s[i] == y);
            }
        }
        assert forall|y: A| (s.contains(y) || y == x) implies #[trigger] s.push(x).contains(y) by {
            if s.contains(y) {
                let i = choose|i: int| 0 <= i < s.len() && s[i] == y;
                assert(s.push(x)[i] == y);
            } else {
                assert(s.push(x)[s.len() as int] == x);
            }
        }
        assert(seq_insert(s, x).to_set() =~= s.to_set().insert(x));
    }
}

pub proof fn lemma_remove_props<A>(s: Seq<A>, x: A)
    requires
        no_dup(s),
    ensures
        no_dup(seq_remove(s, x)),
        seq_remove(s, x).to_set() == s.to_set().remove(x),
        !seq_remove(s, x).contains(x),
        forall|y: A| #[trigger] seq_remove(s, x).contains(y) <==> (s.contains(y) && y != x),
    decreases s.len(),
{
    broadcast use vstd::seq_lib::group_seq_properties;

    if s.len() == 0 {
        assert(seq_remove(s, x).to_set() =~= s.to_set().remove(x));
    } else {
        let prefix = s.drop_last();
        assert(no_dup(prefix));
        lemma_remove_props(prefix, x);
        assert forall|y: A| #[trigger] s.contains(y) implies (prefix.contains(y) || y == s.last()) by {
            let i = choose|i: int| 0 <= i < s.len() && s[i] == y;
            if i < s.len() - 1 {
                assert(prefix[i] == y);
            }
        }
        assert(forall|y: A| prefix.contains(y) ==> #[trigger] s.contains(y));
        assert(s.contains(s.last()));
        if s.last() != x {
            let f = seq_remove(prefix, x);
            assert forall|y: A| #[trigger] f.push(s.last()).contains(y) implies (f.contains(y) || y
                == s.last()) by {
                let i = choose|i: int| 0 <= i < f.push(s.last()).len() && f.push(s.last())[i] == y;
                if i < f.len() {
                    assert(f[i] == y);
                }
            }
            assert(forall|y: A|
                (f.contains(y) || y == s.last()) ==> #[trigger] f.push(s.last()).contains(y));
            assert(no_dup(f.push(s.last()))) by {
                assert(!f.contains(s.last())) by {
                    assert(!prefix.contains(s.last()));
                }
            }
        }
        assert(seq_remove(s, x).to_set() =~= s.to_set().remove(x));
    }
}

impl KeyboardState {
    /// A fresh state: nothing held.
    pub fn new() -> (r: KeyboardState)
        ensures
            r@.mods.len() == 0,
            r@.keys.len() == 0,
            r@.wf(),
    {
        KeyboardState { state_modifiers: Vec::new(), state_keysyms: Vec::new() }
    }

    /// Records a press of `code`.
    pub fn press(&mut self, code: u16)
        requires
            old(self)@.wf(),
        ensures
            final(self)@ == spec_press(old(self)@, code),
            final(self)@.wf(),
    {
        proof {
            lemma_insert_props(self@.mods, spec_modifier_of_key(code)->Some_0);
            lemma_insert_props(self@.keys, code);
        }
        match modifier_of_key(code) {
            Some(m) => {
                if !crate::config::mods_contain(&self.state_modifiers, m) {
                    self.state_modifiers.push(m);
                }
            },
            None => {
                if !contains_key(&self.state_keysyms, code) {
                    self.state_keysyms.push(code);
                }
            },
        }
        proof {
            assert(self@ =~= spec_press(old(self)@, code));
        }
    }

    /// Records a release of `code`.
    pub fn release(&mut self, code: u16)
        requires
            old(self)@.wf(),
        ensures
            final(self)@ == spec_state_release(old(self)@, code),
            final(self)@.wf(),
    {
        proof {
            lemma_remove_props(self@.mods, spec_modifier_of_key(code)->Some_0);
            lemma_remove_props(self@.keys, code);
        }
        match modifier_of_key(code) {
            Some(m) => {
                let filtered = remove_mod(&self.state_modifiers, m);
                self.state_modifiers = filtered;
            },
            None => {
                let filtered = remove_key(&self.state_keysyms, code);
                self.state_keysyms = filtered;
            },
        }
        proof {
            assert(self@ =~= spec_state_release(old(self)@, code));
        }
    }
}

/// Whether `v` holds `code`.
pub fn contains_key(v: &Vec<u16>, code: u16) -> (r: bool)
    ensures
        r == v@.contains(code),
{
    let mut i: usize = 0;
    while i < v.len()
        invariant
            i <= v@.len(),
            forall|j: int| 0 <= j < i ==> v@[j] != code,
        decreases v@.len() - i,
    {
        if v[i] == code {
            return true;
        }
        i = i + 1;
    }
    false
}

fn remove_mod(v: &Vec<Modifier>, m: Modifier) -> (r: Vec<Modifier>)
    ensures
        r@ == seq_remove(v@, m),
{
    let mut r: Vec<Modifier> = Vec::new();
    let mut i: usize = 0;
    proof {
        assert(v@.take(0) =~= Seq::<Modifier>::empty());
    }
    while i < v.len()
        invariant
            i <= v@.len(),
            r@ == seq_remove(v@.take(i as int), m),
        decreases v@.len() - i,
    {
        proof {
            assert(v@.take(i + 1).drop_last() =~= v@.take(i as int));
            assert(v@.take(i + 1).last() == v@[i as int]);
        }
        if v[i] != m {
            r.push(v[i]);
        }
        i = i + 1;
    }
    proof {
        assert(v@.take(v@.len() as int) =~= v@);
    }
    r
}

fn remove_key(v: &Vec<u16>, code: u16) -> (r: Vec<u16>)
    ensures
        r@ == seq_remove(v@, code),
{
    let mut r: Vec<u16> = Vec::new();
    let mut i: usize = 0;
    proof {
        assert(v@.take(0) =~= Seq::<u16>::empty());
    }
    while i < v.len()
        invariant
            i <= v@.len(),
            r@ == seq_remove(v@.take(i as int), code),
        decreases v@.len() - i,
    {
        proof {
            assert(v@.take(i + 1).drop_last() =~= v@.take(i as int));
            assert(v@.take(i + 1).last() == v@[i as int]);
        }
        if v[i] != code {
            r.push(v[i]);
        }
        i = i + 1;
    }
    proof {
        assert(v@.take(v@.len() as int) =~= v@);
    }
    r
}

// ---------------------------------------------------------------------------
// The held-set law
// ---------------------------------------------------------------------------

/// One raw key event: the key code, and whether it is a press (`true`)
/// or a release (`false`).
pub struct KeyEvent {
    pub code: u16,
    pub press: bool,
}

/// The state reached from `kb` after a sequence of events.
pub open spec fn spec_run_events(kb: KbView, events: Seq<KeyEvent>) -> KbView
    decreases events.len(),
{
    if events.len() == 0 {
        kb
    } else {
        let prev = spec_run_events(kb, events.drop_last());
        let e = events.last();
        if e.press {
            spec_press(prev, e.code)
        } else {
            spec_state_release(prev, e.code)
        }
    }
}

/// The set of modifiers physically held after a sequence of events, per
/// the physical-key-to-modifier table.
pub open spec fn spec_held_mods(events: Seq<KeyEvent>) -> Set<Modifier>
    decreases events.len(),
{
    if events.len() == 0 {
        Set::empty()
    } else {
        let prev = spec_held_mods(events.drop_last());
        let e = events.last();
        match spec_modifier_of_key(e.code) {
            Some(m) => if e.press {
                prev.insert(m)
            } else {
                prev.remove(m)
            },
            None => prev,
        }
    }
}

/// The set of ordinary keysyms physically held after a sequence of
/// events.
pub open spec fn spec_held_keys(events: Seq<KeyEvent>) -> Set<u16>
    decreases events.len(),
{
    if events.len() == 0 {
        Set::empty()
    } else {
        let prev = spec_held_keys(events.drop_last());
        let e = events.last();
        match spec_modifier_of_key(e.code) {
            Some(m) => prev,
            None => if e.press {
                prev.insert(e.code)
            } else {
                prev.remove(e.code)
            },
        }
    }
}

/// After any press/release sequence from an empty state, the tracked
/// modifier and keysym members are exactly the keys currently held, per
/// the modifier table: presses insert, releases remove, and a repeated
/// press of a held key changes nothing — the state is a set, not a
/// counter.
pub proof fn lemma_state_is_held_set(kb0: KbView, events: Seq<KeyEvent>)
    requires
        kb0.wf(),
        kb0.mods.len() == 0,
        kb0.keys.len() == 0,
    ensures
        spec_run_events(kb0, events).wf(),
        spec_run_events(kb0, events).mods.to_set() == spec_held_mods(events),
        spec_run_events(kb0, events).keys.to_set() == spec_held_keys(events),
    decreases events.len(),
{
    if events.len() == 0 {
        assert(kb0.mods.to_set() =~= Set::<Modifier>::empty());
        assert(kb0.keys.to_set() =~= Set::<u16>::empty());
    } else {
        lemma_state_is_held_set(kb0, events.drop_last());
        let prev = spec_run_events(kb0, events.drop_last());
        let e = events.last();
        match spec_modifier_of_key(e.code) {
            Some(m) => {
                if e.press {
                    lemma_insert_props(prev.mods, m);
                } else {
                    lemma_remove_props(prev.mods, m);
                }
            },
            None => {
                if e.press {
                    lemma_insert_props(prev.keys, e.code);
                } else {
                    lemma_remove_props(prev.keys, e.code);
                }
            },
        }
    }
}

/// Pressing a key that is already held changes nothing.
pub proof fn lemma_press_idempotent(kb: KbView, code: u16)
    requires
        kb.wf(),
    ensures
        spec_press(spec_press(kb, code), code) == spec_press(kb, code),
{
    lemma_insert_props(kb.mods, spec_modifier_of_key(code)->Some_0);
    lemma_insert_props(kb.keys, code);
    assert(spec_press(spec_press(kb, code), code) =~= spec_press(kb, code));
}


// ---------------------------------------------------------------------------
// Chord matching
// ---------------------------------------------------------------------------

use crate::config::Hotkey;
use crate::config::HotkeyView;
use crate::config::Mode;
use crate::config::ModeView;
use crate::config::modes_views;
use crate::config::mods_contain;
use crate::text::chars_of;
use crate::text::prefix_of;
use crate::text::str_views;
use crate::text::string_from_chars;

/// Whether held modifiers satisfy a hotkey's modifier list: either the
/// hotkey names the wildcard `Any` and something is held, or the held
/// set is exactly the hotkey's set.
pub open spec fn spec_mods_match(state: Seq<Modifier>, hk: Seq<Modifier>) -> bool {
    (state.len() > 0 && hk.contains(Modifier::Any)) || ((forall|i: int|
        0 <= i < state.len() ==> hk.contains(state[i])) && state.len() == hk.len())
}

/// Whether a hotkey's chord is fully held.
pub open spec fn spec_full_match(kb: KbView, h: HotkeyView) -> bool {
    spec_mods_match(kb.mods, h.binding.modifiers) && kb.keys.contains(h.binding.keysym)
}

/// Whether the event's key belongs to a non-`send` hotkey of the active
/// mode whose modifiers are satisfied; such an event is consumed rather
/// than passed through.
pub open spec fn spec_event_in_hotkeys(hotkeys: Seq<HotkeyView>, kb: KbView, code: u16) -> bool {
    exists|i: int|
        0 <= i < hotkeys.len() && (#[trigger] hotkeys[i]).binding.keysym == code
            && spec_mods_match(kb.mods, hotkeys[i].binding.modifiers) && !hotkeys[i].binding.send
}

/// Whether any hotkey passes the cardinality prefilter.
pub open spec fn spec_has_candidate(hotkeys: Seq<HotkeyView>, kb: KbView) -> bool {
    exists|i: int|
        0 <= i < hotkeys.len() && (#[trigger] hotkeys[i]).binding.modifiers.len() == kb.mods.len()
}

/// The first hotkey, in declaration order, that passes the prefilter and
/// whose chord is fully held.
pub open spec fn spec_first_match_from(hotkeys: Seq<HotkeyView>, kb: KbView, i: int) -> Option<int>
    decreases hotkeys.len() - i,
{
    if i < 0 || i >= hotkeys.len() {
        None
    } else if hotkeys[i].binding.modifiers.len() == kb.mods.len() && spec_full_match(
        kb,
        hotkeys[i],
    ) {
        Some(i)
    } else {
        spec_first_match_from(hotkeys, kb, i + 1)
    }
}

pub open spec fn spec_first_match(hotkeys: Seq<HotkeyView>, kb: KbView) -> Option<int> {
    spec_first_match_from(hotkeys, kb, 0)
}

proof fn lemma_first_match_skip(hotkeys: Seq<HotkeyView>, kb: KbView, i: int)
    requires
        0 <= i <= hotkeys.len(),
        forall|j: int|
            0 <= j < i ==> !((#[trigger] hotkeys[j]).binding.modifiers.len() == kb.mods.len()
                && spec_full_match(kb, hotkeys[j])),
    ensures
        spec_first_match(hotkeys, kb) == spec_first_match_from(hotkeys, kb, i),
    decreases i,
{
    if i > 0 {
        lemma_first_match_skip(hotkeys, kb, i - 1);
    }
}

/// Whether `mods_match` holds of the hotkey at each index is what the
/// daemon computes per candidate; this function decides it.
fn mods_match_exec(state: &Vec<Modifier>, hk: &Vec<Modifier>) -> (r: bool)
    ensures
        r == spec_mods_match(state@, hk@),
{
    if state.len() > 0 && mods_contain(hk, Modifier::Any) {
        return true;
    }
    let mut all_in: bool = true;
    let mut i: usize = 0;
    while i < state.len()
        invariant
            i <= state@.len(),
            all_in == (forall|j: int| 0 <= j < i ==> hk@.contains(state@[j])),
        decreases state@.len() - i,
    {
        if !mods_contain(hk, state[i]) {
            all_in = false;
        }
        i = i + 1;
    }
    all_in && state.len() == hk.len()
}

fn event_in_hotkeys_exec(hotkeys: &Vec<Hotkey>, kb: &KeyboardState, code: u16) -> (r: bool)
    ensures
        r == spec_event_in_hotkeys(hotkeys@.map_values(|h: Hotkey| h@), kb@, code),
{
    let ghost hvs = hotkeys@.map_values(|h: Hotkey| h@);
    let mut i: usize = 0;
    while i < hotkeys.len()
        invariant
            i <= hotkeys@.len(),
            hvs == hotkeys@.map_values(|h: Hotkey| h@),
            forall|j: int|
                0 <= j < i ==> !((#[trigger] hvs[j]).binding.keysym == code && spec_mods_match(
                    kb@.mods,
                    hvs[j].binding.modifiers,
                ) && !hvs[j].binding.send),
        decreases hotkeys@.len() - i,
    {
        proof {
            assert(hvs[i as int] == hotkeys@[i as int]@);
        }
        let h = &hotkeys[i];
        if h.keybinding.keysym == code && mods_match_exec(
            &kb.state_modifiers,
            &h.keybinding.modifiers,
        ) && !h.keybinding.send {
            return true;
        }
        i = i + 1;
    }
    false
}

fn has_candidate_exec(hotkeys: &Vec<Hotkey>, kb: &KeyboardState) -> (r: bool)
    ensures
        r == spec_has_candidate(hotkeys@.map_values(|h: Hotkey| h@), kb@),
{
    let ghost hvs = hotkeys@.map_values(|h: Hotkey| h@);
    let mut i: usize = 0;
    while i < hotkeys.len()
        invariant
            i <= hotkeys@.len(),
            hvs == hotkeys@.map_values(|h: Hotkey| h@),
            forall|j: int|
                0 <= j < i ==> (#[trigger] hvs[j]).binding.modifiers.len() != kb@.mods.len(),
        decreases hotkeys@.len() - i,
    {
        proof {
            assert(hvs[i as int] == hotkeys@[i as int]@);
        }
        if hotkeys[i].keybinding.modifiers.len() == kb.state_modifiers.len() {
            return true;
        }
        i = i + 1;
    }
    false
}

fn first_match_exec(hotkeys: &Vec<Hotkey>, kb: &KeyboardState) -> (r: Option<usize>)
    ensures
        match r {
            Some(i) => i < hotkeys@.len() && spec_first_match(
                hotkeys@.map_values(|h: Hotkey| h@),
                kb@,
            ) == Some(i as int),
            None => spec_first_match(hotkeys@.map_values(|h: Hotkey| h@), kb@) is None,
        },
{
    let ghost hvs = hotkeys@.map_values(|h: Hotkey| h@);
    let mut i: usize = 0;
    while i < hotkeys.len()
        invariant
            i <= hotkeys@.len(),
            hvs == hotkeys@.map_values(|h: Hotkey| h@),
            forall|j: int|
                0 <= j < i ==> !((#[trigger] hvs[j]).binding.modifiers.len() == kb@.mods.len()
                    && spec_full_match(kb@, hvs[j])),
        decreases hotkeys@.len() - i,
    {
        proof {
            assert(hvs[i as int] == hotkeys@[i as int]@);
        }
        let h = &hotkeys[i];
        if h.keybinding.modifiers.len() == kb.state_modifiers.len() && mods_match_exec(
            &kb.state_modifiers,
            &h.keybinding.modifiers,
        ) && contains_key(&kb.state_keysyms, h.keybinding.keysym) {
            proof {
                lemma_first_match_skip(hvs, kb@, i as int);
            }
            return Some(i);
        }
        i = i + 1;
    }
    proof {
        lemma_first_match_skip(hvs, kb@, hvs.len() as int);
    }
    None
}

// ---------------------------------------------------------------------------
// The mode stack
// ---------------------------------------------------------------------------

/// A pop clamped at the default mode: the stack never empties. (The
/// alternative — an error on underflow — was rejected: a stray `Escape`
/// in the default mode should be harmless.)
pub open spec fn spec_pop(stack: Seq<usize>) -> Seq<usize> {
    if stack.len() > 1 {
        stack.drop_last()
    } else {
        stack
    }
}

/// The index of the first mode of the given name.
pub open spec fn spec_mode_index_from(modes: Seq<ModeView>, name: Seq<char>, i: int) -> Option<int>
    decreases modes.len() - i,
{
    if i < 0 || i >= modes.len() {
        None
    } else if modes[i].name == name {
        Some(i)
    } else {
        spec_mode_index_from(modes, name, i + 1)
    }
}

pub open spec fn spec_mode_index(modes: Seq<ModeView>, name: Seq<char>) -> Option<int> {
    spec_mode_index_from(modes, name, 0)
}

proof fn lemma_mode_index_skip(modes: Seq<ModeView>, name: Seq<char>, i: int)
    requires
        0 <= i <= modes.len(),
        forall|j: int| 0 <= j < i ==> (#[trigger] modes[j]).name != name,
    ensures
        spec_mode_index(modes, name) == spec_mode_index_from(modes, name, i),
    decreases i,
{
    if i > 0 {
        lemma_mode_index_skip(modes, name, i - 1);
    }
}

proof fn lemma_mode_index_bounds(modes: Seq<ModeView>, name: Seq<char>, i: int)
    requires
        0 <= i <= modes.len(),
    ensures
        spec_mode_index_from(modes, name, i) is Some ==> i <= spec_mode_index_from(
            modes,
            name,
            i,
        )->Some_0 < modes.len(),
    decreases modes.len() - i,
{
    if i < modes.len() && modes[i].name != name {
        lemma_mode_index_bounds(modes, name, i + 1);
    }
}

/// One mode instruction applied to the stack: `Enter` pushes the index
/// of the named mode (a no-op when no mode has the name), `Escape` pops.
pub open spec fn spec_apply_instr(
    modes: Seq<ModeView>,
    stack: Seq<usize>,
    instr: Option<Seq<char>>,
) -> Seq<usize> {
    match instr {
        Some(name) => match spec_mode_index(modes, name) {
            Some(i) => stack.push(i as usize),
            None => stack,
        },
        None => spec_pop(stack),
    }
}

/// A hotkey's instructions applied in order.
pub open spec fn spec_apply_instrs(
    modes: Seq<ModeView>,
    stack: Seq<usize>,
    instrs: Seq<Option<Seq<char>>>,
) -> Seq<usize>
    decreases instrs.len(),
{
    if instrs.len() == 0 {
        stack
    } else {
        spec_apply_instr(modes, spec_apply_instrs(modes, stack, instrs.drop_last()), instrs.last())
    }
}

/// A well-formed stack: never empty, every index in range.
pub open spec fn spec_stack_wf(modes: Seq<ModeView>, stack: Seq<usize>) -> bool {
    stack.len() >= 1 && forall|i: int| 0 <= i < stack.len() ==> (stack[i] as int) < modes.len()
}

/// One instruction keeps the stack well-formed: it never empties and
/// every index stays in range.
pub proof fn lemma_apply_instr_wf(modes: Seq<ModeView>, stack: Seq<usize>, instr: Option<Seq<char>>)
    requires
        spec_stack_wf(modes, stack),
    ensures
        spec_stack_wf(modes, spec_apply_instr(modes, stack, instr)),
{
    match instr {
        Some(name) => {
            lemma_mode_index_bounds(modes, name, 0);
        },
        None => {},
    }
}

/// The mode stack is never emptied by any sequence of instructions: a
/// pop clamps at the default mode, and pushes stay in range.
pub proof fn lemma_apply_instrs_wf(
    modes: Seq<ModeView>,
    stack: Seq<usize>,
    instrs: Seq<Option<Seq<char>>>,
)
    requires
        spec_stack_wf(modes, stack),
    ensures
        spec_stack_wf(modes, spec_apply_instrs(modes, stack, instrs)),
    decreases instrs.len(),
{
    if instrs.len() > 0 {
        lemma_apply_instrs_wf(modes, stack, instrs.drop_last());
        lemma_apply_instr_wf(modes, spec_apply_instrs(modes, stack, instrs.drop_last()), instrs.last());
    }
}

/// A command with a trailing " &&" stripped, as dispatch sends it.
pub open spec fn spec_strip_amp(c: Seq<char>) -> Seq<char> {
    if c.len() >= 3 && c[c.len() - 3] == ' ' && c[c.len() - 2] == '&' && c[c.len() - 1] == '&' {
        c.take(c.len() - 3)
    } else {
        c
    }
}

/// The stack after the pop a `oneoff` active mode earns at dispatch.
pub open spec fn spec_oneoff_pop(modes: Seq<ModeView>, stack: Seq<usize>) -> Seq<usize>
{
    if modes[stack.last() as int].oneoff {
        spec_pop(stack)
    } else {
        stack
    }
}

/// The whole stack effect of dispatching `h`: the oneoff pop, then the
/// hotkey's own instructions.
pub open spec fn spec_dispatch_stack(
    modes: Seq<ModeView>,
    stack: Seq<usize>,
    h: HotkeyView,
) -> Seq<usize> {
    spec_apply_instrs(modes, spec_oneoff_pop(modes, stack), h.instrs)
}

// ---------------------------------------------------------------------------
// The daemon state
// ---------------------------------------------------------------------------

/// The mutable state of the matcher: the loaded modes, the mode stack,
/// the pause flag, and the one in-flight hotkey with its deferred-
/// dispatch flag.
pub struct Daemon {
    pub modes: Vec<Mode>,
    pub mode_stack: Vec<usize>,
    pub paused: bool,
    pub last_hotkey: Option<Hotkey>,
    pub pending_release: bool,
}

/// The model of the daemon state.
#[verifier::ext_equal]
pub struct DaemonView {
    pub modes: Seq<ModeView>,
    pub stack: Seq<usize>,
    pub paused: bool,
    pub last: Option<HotkeyView>,
    pub pending: bool,
}

impl View for Daemon {
    type V = DaemonView;

    open spec fn view(&self) -> DaemonView {
        DaemonView {
            modes: modes_views(self.modes@),
            stack: self.mode_stack@,
            paused: self.paused,
            last: match self.last_hotkey {
                Some(h) => Some(h@),
                None => None,
            },
            pending: self.pending_release,
        }
    }
}

impl DaemonView {
    pub open spec fn wf(self) -> bool {
        self.modes.len() >= 1 && spec_stack_wf(self.modes, self.stack)
    }

    /// The active mode: the top of the stack.
    pub open spec fn active(self) -> ModeView {
        self.modes[self.stack.last() as int]
    }
}

/// The daemon state after dispatching `h`: only the mode stack moves.
pub open spec fn spec_send_command(d: DaemonView, h: HotkeyView) -> DaemonView {
    DaemonView { stack: spec_dispatch_stack(d.modes, d.stack, h), ..d }
}

impl Daemon {
    /// A daemon over the given mode list, in the default mode, running.
    pub fn new(modes: Vec<Mode>) -> (r: Daemon)
        requires
            modes@.len() >= 1,
        ensures
            r@.modes == modes_views(modes@),
            r@.stack =~= seq![0usize],
            !r@.paused,
            r@.last is None,
            !r@.pending,
            r@.wf(),
    {
        let mut stack: Vec<usize> = Vec::new();
        stack.push(0);
        Daemon {
            modes,
            mode_stack: stack,
            paused: false,
            last_hotkey: None,
            pending_release: false,
        }
    }

    /// Stops matching; devices are released by the caller.
    pub fn pause(&mut self)
        ensures
            final(self)@ == (DaemonView { paused: true, ..old(self)@ }),
    {
        self.paused = true;
        proof {
            assert(self@ =~= (DaemonView { paused: true, ..old(self)@ }));
        }
    }

    /// Resumes matching.
    pub fn resume(&mut self)
        ensures
            final(self)@ == (DaemonView { paused: false, ..old(self)@ }),
    {
        self.paused = false;
        proof {
            assert(self@ =~= (DaemonView { paused: false, ..old(self)@ }));
        }
    }

    /// Replaces the mode list after a reload and resets the stack to the
    /// default mode.
    pub fn reload(&mut self, modes: Vec<Mode>)
        requires
            modes@.len() >= 1,
        ensures
            final(self)@.modes == modes_views(modes@),
            final(self)@.stack =~= seq![0usize],
            final(self)@.paused == old(self)@.paused,
            final(self)@.last == old(self)@.last,
            final(self)@.pending == old(self)@.pending,
            final(self)@.wf(),
    {
        self.modes = modes;
        let mut stack: Vec<usize> = Vec::new();
        stack.push(0);
        self.mode_stack = stack;
    }

    fn mode_index(&self, name: &String) -> (r: Option<usize>)
        ensures
            match r {
                Some(i) => i < self.modes@.len() && spec_mode_index(self@.modes, name@) == Some(
                    i as int,
                ),
                None => spec_mode_index(self@.modes, name@) is None,
            },
    {
        let ghost mvs = self@.modes;
        let mut i: usize = 0;
        while i < self.modes.len()
            invariant
                i <= self.modes@.len(),
                mvs == modes_views(self.modes@),
                forall|j: int| 0 <= j < i ==> (#[trigger] mvs[j]).name != name@,
            decreases self.modes@.len() - i,
        {
            proof {
                assert(mvs[i as int] == self.modes@[i as int]@);
            }
            if self.modes[i].name == *name {
                proof {
                    lemma_mode_index_skip(mvs, name@, i as int);
                }
                return Some(i);
            }
            i = i + 1;
        }
        proof {
            lemma_mode_index_skip(mvs, name@, mvs.len() as int);
        }
        None
    }

    fn pop_clamped(&mut self)
        requires
            old(self)@.wf(),
        ensures
            final(self)@ == (DaemonView { stack: spec_pop(old(self)@.stack), ..old(self)@ }),
            final(self)@.wf(),
    {
        if self.mode_stack.len() > 1 {
            self.mode_stack.pop();
        }
        proof {
            if old(self)@.stack.len() > 1 {
                assert(self@.stack =~= spec_pop(old(self)@.stack));
            }
            assert(self@ =~= (DaemonView { stack: spec_pop(old(self)@.stack), ..old(self)@ }));
        }
    }

    /// Dispatches a hotkey: pops a `oneoff` active mode, applies the
    /// hotkey's mode instructions in order, and yields the command to
    /// hand to the executor, with a trailing " &&" stripped.
    pub fn send_command(&mut self, hotkey: &Hotkey) -> (cmd: String)
        requires
            old(self)@.wf(),
        ensures
            final(self)@ == spec_send_command(old(self)@, hotkey@),
            final(self)@.wf(),
            cmd@ == spec_strip_amp(hotkey@.command),
    {
        let top = self.mode_stack[self.mode_stack.len() - 1];
        if self.modes[top].options.oneoff {
            proof {
                assert(self@.modes[top as int] == self.modes@[top as int]@);
            }
            self.pop_clamped();
        }
        proof {
            assert(self@.stack == spec_oneoff_pop(old(self)@.modes, old(self)@.stack));
        }
        let ghost start_stack = self@.stack;
        let ghost instrs = hotkey@.instrs;
        let n = hotkey.mode_instructions.len();
        let mut i: usize = 0;
        proof {
            assert(instrs.take(0) =~= Seq::<Option<Seq<char>>>::empty());
        }
        while i < n
            invariant
                i <= n,
                n == hotkey.mode_instructions@.len(),
                instrs == hotkey@.instrs,
                instrs.len() == n,
                self@.modes == old(self)@.modes,
                self@.paused == old(self)@.paused,
                self@.last == old(self)@.last,
                self@.pending == old(self)@.pending,
                self@.stack == spec_apply_instrs(self@.modes, start_stack, instrs.take(i as int)),
                spec_stack_wf(self@.modes, start_stack),
                self@.wf(),
            decreases n - i,
        {
            proof {
                assert(instrs[i as int] == crate::config::instr_name(
                    hotkey.mode_instructions@[i as int],
                ));
                assert(instrs.take(i + 1).drop_last() =~= instrs.take(i as int));
                assert(instrs.take(i + 1).last() == instrs[i as int]);
            }
            match &hotkey.mode_instructions[i] {
                crate::config::ModeInstruction::Enter(name) => {
                    match self.mode_index(name) {
                        Some(idx) => {
                            self.mode_stack.push(idx);
                        },
                        None => {},
                    }
                },
                crate::config::ModeInstruction::Escape => {
                    self.pop_clamped();
                },
            }
            proof {
                assert(self@.stack == spec_apply_instrs(
                    self@.modes,
                    start_stack,
                    instrs.take(i + 1),
                ));
            }
            i = i + 1;
        }
        proof {
            assert(instrs.take(n as int) =~= instrs);
            assert(self@ =~= spec_send_command(old(self)@, hotkey@));
        }
        let cmd_chars = chars_of(hotkey.command.as_str());
        let len = cmd_chars.len();
        if len >= 3 && cmd_chars[len - 3] == ' ' && cmd_chars[len - 2] == '&' && cmd_chars[len - 1]
            == '&' {
            let stripped = prefix_of(&cmd_chars, len - 3);
            string_from_chars(&stripped)
        } else {
            string_from_chars(&cmd_chars)
        }
    }
}


// ---------------------------------------------------------------------------
// Event handling
// ---------------------------------------------------------------------------

/// Everything one key event produces: the next daemon and device state,
/// the commands dispatched (up to two: a deferred dispatch fired by a
/// release, then a fresh match), whether the raw event is re-emitted to
/// the virtual output, and whether the repeat timer is (re)armed.
#[verifier::ext_equal]
pub struct EventOutcome {
    pub d: DaemonView,
    pub kb: KbView,
    pub commands: Seq<Seq<char>>,
    pub emit: bool,
    pub arm_timer: bool,
}

/// Whether releasing `code` lets go of part of the binding's chord:
/// its keysym, or one of its modifiers under the modifier table.
pub open spec fn spec_release_touches(binding: crate::config::KeyBindingView, code: u16) -> bool {
    match spec_modifier_of_key(code) {
        Some(m) => binding.modifiers.contains(m),
        None => binding.keysym == code,
    }
}

/// The release stage: a pending deferred hotkey fires first, and only
/// when the release corresponds to its chord; then the released key
/// leaves the device state, and the in-flight hotkey is cleared when
/// one of its constituent keys was released.
pub open spec fn spec_release_phase(d: DaemonView, kb: KbView, code: u16) -> (
    DaemonView,
    KbView,
    Seq<Seq<char>>,
) {
    let fired = d.last is Some && d.pending && spec_release_touches(d.last->Some_0.binding, code);
    let d1 = if fired {
        DaemonView { last: None, pending: false, ..spec_send_command(d, d.last->Some_0) }
    } else {
        d
    };
    let cmds = if fired {
        seq![spec_strip_amp(d.last->Some_0.command)]
    } else {
        Seq::<Seq<char>>::empty()
    };
    let kb1 = spec_state_release(kb, code);
    let d2 = match spec_modifier_of_key(code) {
        Some(m) => if d1.last is Some && d1.last->Some_0.binding.modifiers.contains(m) {
            DaemonView { last: None, ..d1 }
        } else {
            d1
        },
        None => if kb.keys.contains(code) && d1.last is Some && d1.last->Some_0.binding.keysym
            == code {
            DaemonView { last: None, ..d1 }
        } else {
            d1
        },
    };
    (d2, kb1, cmds)
}

/// The whole effect of one key event, exactly as the event loop handles
/// it: the state update (press or release, with a deferred dispatch
/// fired at release), then the pass-through decision — the raw event is
/// re-emitted unless the active mode swallows or a non-`send` hotkey
/// claims the key — and, when the daemon is not paused, no hotkey is in
/// flight and some hotkey passes the cardinality prefilter, the first
/// fully-held hotkey in declaration order becomes the in-flight hotkey:
/// dispatched at once and arming the repeat timer, or held back until
/// release when it is `on_release`.
pub open spec fn spec_handle_event(d: DaemonView, kb: KbView, code: u16, value: i32) -> EventOutcome {
    let staged = if value == 1 {
        (d, spec_press(kb, code), Seq::<Seq<char>>::empty())
    } else if value == 0 {
        spec_release_phase(d, kb, code)
    } else {
        (d, kb, Seq::<Seq<char>>::empty())
    };
    let d1 = staged.0;
    let kb1 = staged.1;
    let cmds1 = staged.2;
    let active = d1.active();
    let emit = !active.swallow && !spec_event_in_hotkeys(active.hotkeys, kb1, code);
    if d1.paused || !spec_has_candidate(active.hotkeys, kb1) || d1.last is Some {
        EventOutcome { d: d1, kb: kb1, commands: cmds1, emit, arm_timer: false }
    } else {
        match spec_first_match(active.hotkeys, kb1) {
            None => EventOutcome { d: d1, kb: kb1, commands: cmds1, emit, arm_timer: false },
            Some(i) => {
                let h = active.hotkeys[i];
                let d2 = DaemonView { last: Some(h), ..d1 };
                if d1.pending {
                    EventOutcome { d: d2, kb: kb1, commands: cmds1, emit, arm_timer: false }
                } else if h.binding.on_release {
                    EventOutcome {
                        d: DaemonView { pending: true, ..d2 },
                        kb: kb1,
                        commands: cmds1,
                        emit,
                        arm_timer: false,
                    }
                } else {
                    EventOutcome {
                        d: spec_send_command(d2, h),
                        kb: kb1,
                        commands: cmds1.push(spec_strip_amp(h.command)),
                        emit,
                        arm_timer: true,
                    }
                }
            },
        }
    }
}

/// What the caller does with one handled event.
pub struct EventResponse {
    pub emit: bool,
    pub commands: Vec<String>,
    pub arm_timer: bool,
}

proof fn lemma_remove_absent<A>(s: Seq<A>, x: A)
    requires
        !s.contains(x),
    ensures
        seq_remove(s, x) == s,
    decreases s.len(),
{
    if s.len() > 0 {
        assert(!s.drop_last().contains(x)) by {
            if s.drop_last().contains(x) {
                let i = choose|i: int| 0 <= i < s.drop_last().len() && s.drop_last()[i] == x;
                assert(s[i] == x);
            }
        }
        lemma_remove_absent(s.drop_last(), x);
        assert(s.contains(s.last())) by {
            assert(s[s.len() - 1] == s.last());
        }
        assert(seq_remove(s, x) =~= s);
    }
}

impl Daemon {
    /// Handles one key event from a grabbed device.
    pub fn handle_key_event(&mut self, kb: &mut KeyboardState, code: u16, value: i32) -> (r:
        EventResponse)
        requires
            old(self)@.wf(),
            old(kb)@.wf(),
        ensures
            ({
                let o = spec_handle_event(old(self)@, old(kb)@, code, value);
                &&& final(self)@ == o.d
                &&& final(kb)@ == o.kb
                &&& str_views(r.commands@) == o.commands
                &&& r.emit == o.emit
                &&& r.arm_timer == o.arm_timer
            }),
            final(self)@.wf(),
            final(kb)@.wf(),
    {
        let ghost o = spec_handle_event(old(self)@, old(kb)@, code, value);
        let mut commands: Vec<String> = Vec::new();
        if value == 1 {
            kb.press(code);
        } else if value == 0 {
            let released_chord_key = match &self.last_hotkey {
                Some(h) => match modifier_of_key(code) {
                    Some(m) => mods_contain(&h.keybinding.modifiers, m),
                    None => h.keybinding.keysym == code,
                },
                None => false,
            };
            if self.last_hotkey.is_some() && self.pending_release && released_chord_key {
                self.pending_release = false;
                let h = match &self.last_hotkey {
                    Some(h) => h.clone(),
                    None => unreached(),
                };
                let cmd = self.send_command(&h);
                commands.push(cmd);
                self.last_hotkey = None;
                proof {
                    assert(self@ =~= (DaemonView {
                        last: None,
                        pending: false,
                        ..spec_send_command(old(self)@, old(self)@.last->Some_0)
                    }));
                }
            }
            let ghost d1 = self@;
            match modifier_of_key(code) {
                Some(m) => {
                    let clear = match &self.last_hotkey {
                        Some(h) => mods_contain(&h.keybinding.modifiers, m),
                        None => false,
                    };
                    if clear {
                        self.last_hotkey = None;
                        proof {
                            assert(self@ =~= (DaemonView { last: None, ..d1 }));
                        }
                    }
                    kb.release(code);
                },
                None => {
                    if contains_key(&kb.state_keysyms, code) {
                        let clear = match &self.last_hotkey {
                            Some(h) => h.keybinding.keysym == code,
                            None => false,
                        };
                        if clear {
                            self.last_hotkey = None;
                            proof {
                                assert(self@ =~= (DaemonView { last: None, ..d1 }));
                            }
                        }
                        kb.release(code);
                    } else {
                        proof {
                            lemma_remove_absent(kb@.keys, code);
                            assert(kb@ =~= spec_state_release(kb@, code));
                        }
                    }
                },
            }
        }
        proof {
            let staged = if value == 1 {
                (old(self)@, spec_press(old(kb)@, code), Seq::<Seq<char>>::empty())
            } else if value == 0 {
                spec_release_phase(old(self)@, old(kb)@, code)
            } else {
                (old(self)@, old(kb)@, Seq::<Seq<char>>::empty())
            };
            assert(self@ == staged.0);
            assert(kb@ == staged.1);
            assert(str_views(commands@) =~= staged.2);
        }
        let top = self.mode_stack[self.mode_stack.len() - 1];
        proof {
            assert(self@.active() == self.modes@[top as int]@);
        }
        let swallow = self.modes[top].options.swallow;
        let in_hotkeys = event_in_hotkeys_exec(&self.modes[top].hotkeys, kb, code);
        let emit = !swallow && !in_hotkeys;
        proof {
            assert(self.modes@[top as int]@.hotkeys =~= self.modes@[top as int].hotkeys@.map_values(
                |h: Hotkey| h@,
            ));
        }
        let mut arm_timer = false;
        if !(self.paused || !has_candidate_exec(&self.modes[top].hotkeys, kb)
            || self.last_hotkey.is_some()) {
            match first_match_exec(&self.modes[top].hotkeys, kb) {
                Some(idx) => {
                    let ghost d1 = self@;
                    let h = self.modes[top].hotkeys[idx].clone();
                    proof {
                        assert(h@ == d1.active().hotkeys[idx as int]);
                    }
                    self.last_hotkey = Some(h.clone());
                    proof {
                        assert(self@ =~= (DaemonView { last: Some(h@), ..d1 }));
                    }
                    if self.pending_release {
                    } else if h.keybinding.on_release {
                        self.pending_release = true;
                        proof {
                            assert(self@ =~= (DaemonView {
                                pending: true,
                                last: Some(h@),
                                ..d1
                            }));
                        }
                    } else {
                        let cmd = self.send_command(&h);
                        commands.push(cmd);
                        arm_timer = true;
                    }
                },
                None => {},
            }
        }
        proof {
            assert(self@ =~= o.d);
            assert(str_views(commands@) =~= o.commands);
        }
        EventResponse { emit, commands, arm_timer }
    }

    /// Handles an expiry of the repeat timer: a held, non-deferred
    /// in-flight hotkey is dispatched again, and the timer is re-armed
    /// exactly when a command comes back.
    pub fn handle_timer(&mut self) -> (cmd: Option<String>)
        requires
            old(self)@.wf(),
        ensures
            final(self)@.wf(),
            (old(self)@.last is Some && !old(self)@.last->Some_0.binding.on_release) ==> ({
                &&& cmd is Some
                &&& cmd->Some_0@ == spec_strip_amp(old(self)@.last->Some_0.command)
                &&& final(self)@ == spec_send_command(old(self)@, old(self)@.last->Some_0)
            }),
            !(old(self)@.last is Some && !old(self)@.last->Some_0.binding.on_release) ==> (cmd
                is None && final(self)@ == old(self)@),
    {
        let h = match &self.last_hotkey {
            Some(h) => h.clone(),
            None => {
                proof {
                    assert(self@ =~= old(self)@);
                }
                return None;
            },
        };
        if h.keybinding.on_release {
            proof {
                assert(self@ =~= old(self)@);
            }
            return None;
        }
        let cmd = self.send_command(&h);
        Some(cmd)
    }

    /// Whether the repeat timer is conceptually armed: it fires only
    /// while a hotkey is in flight.
    pub fn timer_active(&self) -> (r: bool)
        ensures
            r == (self@.last is Some),
    {
        self.last_hotkey.is_some()
    }
}


// ---------------------------------------------------------------------------
// Device classification
// ---------------------------------------------------------------------------

/// Whether a device is grabbed as a keyboard: it must offer the Enter
/// key, and must not be the daemon's own virtual output, which would
/// feed the daemon its own events.
pub open spec fn spec_is_keyboard(supports_enter_key: bool, name: Option<Seq<char>>) -> bool {
    supports_enter_key && match name {
        Some(n) => n != "swhkd virtual output"@,
        None => true,
    }
}

pub fn check_device_is_keyboard(supports_enter_key: bool, name: Option<&str>) -> (r: bool)
    ensures
        r == spec_is_keyboard(
            supports_enter_key,
            match name {
                Some(n) => Some(n@),
                None => None,
            },
        ),
{
    if !supports_enter_key {
        return false;
    }
    match name {
        Some(n) => {
            let nm = chars_of(n);
            let own = chars_of("swhkd virtual output");
            !crate::text::text_eq(&nm, &own)
        },
        None => true,
    }
}

// ---------------------------------------------------------------------------
// Signals
// ---------------------------------------------------------------------------

/// What the daemon does on a signal: pause on SIGUSR1, resume on
/// SIGUSR2, reload the configuration on SIGHUP; every other signal
/// releases the devices and terminates.
pub enum SignalAction {
    Pause,
    Resume,
    Reload,
    Terminate,
}

pub open spec fn spec_signal_action(signal: i32) -> SignalAction {
    if signal == 10 {
        SignalAction::Pause
    } else if signal == 12 {
        SignalAction::Resume
    } else if signal == 1 {
        SignalAction::Reload
    } else {
        SignalAction::Terminate
    }
}

/// Classifies a signal number (SIGUSR1 is 10, SIGUSR2 is 12, SIGHUP is
/// 1 on Linux).
pub fn signal_action(signal: i32) -> (r: SignalAction)
    ensures
        r == spec_signal_action(signal),
{
    if signal == 10 {
        SignalAction::Pause
    } else if signal == 12 {
        SignalAction::Resume
    } else if signal == 1 {
        SignalAction::Reload
    } else {
        SignalAction::Terminate
    }
}


// ---------------------------------------------------------------------------
// Laws of matching and of the mode stack
// ---------------------------------------------------------------------------

/// Matching is exact-set except for `Any`: without the wildcard, a
/// hotkey's modifier condition holds exactly when the held modifiers are
/// the hotkey's modifiers as a set (and as many); a hotkey that names
/// `Any` matches whenever any modifier at all is held.
pub proof fn lemma_match_exact_set(state: Seq<Modifier>, hk: Seq<Modifier>)
    requires
        no_dup(state),
    ensures
        !hk.contains(Modifier::Any) ==> (spec_mods_match(state, hk) <==> (state.to_set()
            == hk.to_set() && state.len() == hk.len())),
        hk.contains(Modifier::Any) ==> (spec_mods_match(state, hk) <==> state.len() > 0),
{
    broadcast use vstd::seq_lib::group_seq_properties;

    assert(state.no_duplicates());
    if hk.contains(Modifier::Any) {
        if spec_mods_match(state, hk) && state.len() == 0 {
            assert(hk.len() == 0);
        }
    } else {
        if spec_mods_match(state, hk) {
            assert(forall|i: int| 0 <= i < state.len() ==> hk.contains(state[i]));
            assert(state.to_set().subset_of(hk.to_set())) by {
                assert forall|m: Modifier| state.to_set().contains(m) implies hk.to_set().contains(
                    m,
                ) by {
                    assert(state.contains(m));
                    let i = choose|i: int| 0 <= i < state.len() && state[i] == m;
                    assert(hk.contains(state[i]));
                }
            }
            state.unique_seq_to_set();
            hk.lemma_cardinality_of_set();
            vstd::set_lib::lemma_len_subset(state.to_set(), hk.to_set());
            vstd::set_lib::lemma_subset_equality(state.to_set(), hk.to_set());
        }
        if state.to_set() == hk.to_set() && state.len() == hk.len() {
            assert forall|i: int| 0 <= i < state.len() implies hk.contains(state[i]) by {
                assert(state.contains(state[i]));
                assert(state.to_set().contains(state[i]));
                assert(hk.to_set().contains(state[i]));
            }
        }
    }
}

/// Entering a mode and then escaping it restores the mode stack
/// exactly, provided the entered name exists; nesting follows by
/// applying this twice.
pub proof fn lemma_enter_escape_roundtrip(modes: Seq<ModeView>, stack: Seq<usize>, name: Seq<char>)
    requires
        spec_stack_wf(modes, stack),
        spec_mode_index(modes, name) is Some,
    ensures
        spec_apply_instrs(
            modes,
            spec_apply_instrs(modes, stack, seq![Some(name)]),
            seq![Option::<Seq<char>>::None],
        ) == stack,
{
    let enter = seq![Some(name)];
    let escape = seq![Option::<Seq<char>>::None];
    assert(enter.drop_last() =~= Seq::<Option<Seq<char>>>::empty());
    assert(escape.drop_last() =~= Seq::<Option<Seq<char>>>::empty());
    assert(spec_apply_instrs(modes, stack, Seq::<Option<Seq<char>>>::empty()) == stack);
    let idx = spec_mode_index(modes, name)->Some_0;
    let s1 = spec_apply_instrs(modes, stack, enter);
    assert(enter.last() == Some(name));
    assert(s1 == spec_apply_instr(modes, stack, Some(name)));
    assert(s1 == stack.push(idx as usize));
    assert(s1.len() == stack.len() + 1 >= 2);
    assert(spec_apply_instrs(modes, s1, Seq::<Option<Seq<char>>>::empty()) == s1);
    assert(escape.last() == Option::<Seq<char>>::None);
    assert(spec_apply_instrs(modes, s1, escape) == spec_pop(s1));
    assert(s1.drop_last() =~= stack);
}

/// A `oneoff` active mode leaves the stack at its first dispatch, even
/// when the hotkey's own instructions say nothing.
pub proof fn lemma_oneoff_pops(d: DaemonView, h: HotkeyView)
    requires
        d.wf(),
        d.active().oneoff,
        h.instrs.len() == 0,
    ensures
        spec_send_command(d, h).stack == spec_pop(d.stack),
{
}

/// The swallow law, for a press: with `swallow` on in the active mode,
/// no raw event reaches the virtual output; with it off, the event
/// passes through exactly when no satisfied non-`send` hotkey claims the
/// key.
pub proof fn lemma_swallow_law(d: DaemonView, kb: KbView, code: u16)
    requires
        d.wf(),
    ensures
        d.active().swallow ==> !spec_handle_event(d, kb, code, 1).emit,
        !d.active().swallow ==> (spec_handle_event(d, kb, code, 1).emit <==> !spec_event_in_hotkeys(
            d.active().hotkeys,
            spec_press(kb, code),
            code,
        )),
{
}

/// A deferred (`on_release`) hotkey in flight dispatches exactly once,
/// at the release of one of its constituent keys, and its deferral
/// flag clears with it; any other release leaves it pending.
pub proof fn lemma_deferred_dispatch(d: DaemonView, kb: KbView, code: u16)
    requires
        d.wf(),
        d.last is Some,
        d.pending,
        spec_release_touches(d.last->Some_0.binding, code),
    ensures
        spec_release_phase(d, kb, code).2 =~= seq![
            spec_strip_amp(d.last->Some_0.command),
        ],
        !spec_release_phase(d, kb, code).0.pending,
        spec_release_phase(d, kb, code).0.last is None,
{
}

} // verus!
