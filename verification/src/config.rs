use vstd::prelude::*;

pub use crate::keys::Modifier;

verus! {
use crate::text::chars_of;
use crate::text::spec_split;
use crate::text::spec_u64_dec;
use crate::text::split;
use crate::text::string_from_chars;
use crate::text::u64_to_dec;
use crate::text::str_views;
use crate::text::views;

// ---------------------------------------------------------------------------
// Errors
// ---------------------------------------------------------------------------

/// Why a configuration failed to load: the file was absent, reading it
/// failed (the message of the I/O failure is kept), or its text did not
/// parse.
#[derive(Debug)]
pub enum Error {
    ConfigNotFound,
    Io(String),
    InvalidConfig(ParseError),
}

/// A parse failure, with the path of the offending file and the
/// one-based line number at which it was found.
#[derive(Debug)]
pub enum ParseError {
    UnknownSymbol(String, u32),
    InvalidModifier(String, u32),
    InvalidKeysym(String, u32),
}

impl PartialEq for ParseError {
    fn eq(&self, other: &Self) -> bool {
        match (self, other) {
            (ParseError::UnknownSymbol(p, l), ParseError::UnknownSymbol(q, m)) => *p == *q && *l
                == *m,
            (ParseError::InvalidModifier(p, l), ParseError::InvalidModifier(q, m)) => *p == *q
                && *l == *m,
            (ParseError::InvalidKeysym(p, l), ParseError::InvalidKeysym(q, m)) => *p == *q && *l
                == *m,
            _ => false,
        }
    }
}

impl vstd::std_specs::cmp::PartialEqSpecImpl for ParseError {
    open spec fn obeys_eq_spec() -> bool {
        true
    }

    open spec fn eq_spec(&self, other: &Self) -> bool {
        match (self, other) {
            (ParseError::UnknownSymbol(p, l), ParseError::UnknownSymbol(q, m)) => p@ == q@ && l
                == m,
            (ParseError::InvalidModifier(p, l), ParseError::InvalidModifier(q, m)) => p@ == q@ && l
                == m,
            (ParseError::InvalidKeysym(p, l), ParseError::InvalidKeysym(q, m)) => p@ == q@ && l
                == m,
            _ => false,
        }
    }
}

/// The message of a parse error: the path stands quoted, the line number
/// in decimal.
pub open spec fn spec_parse_error_message(e: ParseError) -> Seq<char> {
    match e {
        ParseError::UnknownSymbol(p, l) => "Error parsing config file \""@ + p@
            + "\". Unknown symbol at line "@ + spec_u64_dec(l as u64) + "."@,
        ParseError::InvalidModifier(p, l) => "Error parsing config file \""@ + p@
            + "\". Invalid modifier at line "@ + spec_u64_dec(l as u64) + "."@,
        ParseError::InvalidKeysym(p, l) => "Error parsing config file \""@ + p@
            + "\". Invalid keysym at line "@ + spec_u64_dec(l as u64) + "."@,
    }
}

fn render_parse_message(path: &String, line: u32, tail: &str) -> (r: String)
    ensures
        r@ == "Error parsing config file \""@ + path@ + tail@ + spec_u64_dec(line as u64) + "."@,
{
    let mut out: Vec<char> = chars_of("Error parsing config file \"");
    let mut path_chars = chars_of(path.as_str());
    out.append(&mut path_chars);
    let mut tail_chars = chars_of(tail);
    out.append(&mut tail_chars);
    let mut digits = u64_to_dec(line as u64);
    out.append(&mut digits);
    out.push('.');
    proof {
        reveal_strlit(".");
        assert("."@ =~= seq!['.']);
        assert(out@ =~= "Error parsing config file \""@ + path@ + tail@ + spec_u64_dec(
            line as u64,
        ) + "."@);
    }
    string_from_chars(&out)
}

impl ParseError {
    /// Renders the error as its user-facing message.
    pub fn message(&self) -> (r: String)
        ensures
            r@ == spec_parse_error_message(*self),
    {
        match self {
            ParseError::UnknownSymbol(p, l) => render_parse_message(
                p,
                *l,
                "\". Unknown symbol at line ",
            ),
            ParseError::InvalidModifier(p, l) => render_parse_message(
                p,
                *l,
                "\". Invalid modifier at line ",
            ),
            ParseError::InvalidKeysym(p, l) => render_parse_message(
                p,
                *l,
                "\". Invalid keysym at line ",
            ),
        }
    }
}

/// The message of a load error.
pub open spec fn spec_error_message(e: Error) -> Seq<char> {
    match e {
        Error::ConfigNotFound => "Config file not found."@,
        Error::Io(m) => "I/O Error while parsing config file: "@ + m@,
        Error::InvalidConfig(p) => spec_parse_error_message(p),
    }
}

impl Error {
    /// Renders the error as its user-facing message.
    pub fn message(&self) -> (r: String)
        ensures
            r@ == spec_error_message(*self),
    {
        match self {
            Error::ConfigNotFound => {
                let out = chars_of("Config file not found.");
                string_from_chars(&out)
            },
            Error::Io(m) => {
                let mut out = chars_of("I/O Error while parsing config file: ");
                let mut mc = chars_of(m.as_str());
                out.append(&mut mc);
                proof {
                    assert(out@ =~= spec_error_message(*self));
                }
                string_from_chars(&out)
            },
            Error::InvalidConfig(p) => p.message(),
        }
    }
}

// ---------------------------------------------------------------------------
// Key bindings and hotkeys
// ---------------------------------------------------------------------------

/// A chord as configured: a keysym (a Linux key code), the set of
/// modifiers held with it, and the two prefix flags — `send` passes the
/// triggering event on to the virtual output, `on_release` defers the
/// dispatch to the release of the chord.
#[derive(Debug)]
pub struct KeyBinding {
    pub keysym: u16,
    pub modifiers: Vec<Modifier>,
    pub send: bool,
    pub on_release: bool,
}

/// No modifier occurs twice.
pub open spec fn no_dup_mods(s: Seq<Modifier>) -> bool {
    forall|i: int, j: int| 0 <= i < j < s.len() ==> s[i] != s[j]
}

/// Set-based equality of binding models: every modifier of one occurs
/// in the other and they are equally many; the keysym and the flags are
/// compared exactly.
pub open spec fn kbv_eq(a: KeyBindingView, b: KeyBindingView) -> bool {
    a.keysym == b.keysym && (forall|i: int|
        0 <= i < a.modifiers.len() ==> b.modifiers.contains(a.modifiers[i]))
        && a.modifiers.len() == b.modifiers.len() && a.send == b.send && a.on_release == b.on_release
}

/// The subsequence of first occurrences, in order.
pub open spec fn spec_dedup(s: Seq<Modifier>) -> Seq<Modifier>
    decreases s.len(),
{
    if s.len() == 0 {
        s
    } else {
        let p = spec_dedup(s.drop_last());
        if p.contains(s.last()) {
            p
        } else {
            p.push(s.last())
        }
    }
}

pub proof fn lemma_dedup_props(s: Seq<Modifier>)
    ensures
        no_dup_mods(spec_dedup(s)),
        spec_dedup(s).to_set() == s.to_set(),
        forall|m: Modifier| #[trigger] spec_dedup(s).contains(m) <==> s.contains(m),
    decreases s.len(),
{
    if s.len() == 0 {
        assert(spec_dedup(s).to_set() =~= s.to_set());
    } else {
        lemma_dedup_props(s.drop_last());
        let p = spec_dedup(s.drop_last());
        assert(forall|m: Modifier| #[trigger] s.contains(m) <==> (s.drop_last().contains(m) || m
            == s.last())) by {
            assert forall|m: Modifier| #[trigger] s.contains(m) implies (s.drop_last().contains(m)
                || m == s.last()) by {
                let i = choose|i: int| 0 <= i < s.len() && s[i] == m;
                if i < s.len() - 1 {
                    assert(s.drop_last()[i] == m);
                }
            }
            assert forall|m: Modifier| s.drop_last().contains(m) implies #[trigger] s.contains(
                m,
            ) by {
                let i = choose|i: int| 0 <= i < s.drop_last().len() && s.drop_last()[i] == m;
                assert(s[i] == m);
            }
            assert(s.contains(s.last()));
        }
        if p.contains(s.last()) {
            assert(spec_dedup(s).to_set() =~= s.to_set());
        } else {
            assert(forall|m: Modifier| #[trigger] p.push(s.last()).contains(m) <==> (p.contains(m)
                || m == s.last())) by {
                assert forall|m: Modifier| #[trigger] p.push(s.last()).contains(m) implies (
                p.contains(m) || m == s.last()) by {
                    let i = choose|i: int| 0 <= i < p.push(s.last()).len() && p.push(s.last())[i]
                        == m;
                    if i < p.len() {
                        assert(p[i] == m);
                    }
                }
                assert forall|m: Modifier| p.contains(m) implies #[trigger] p.push(
                    s.last(),
                ).contains(m) by {
                    let i = choose|i: int| 0 <= i < p.len() && p[i] == m;
                    assert(p.push(s.last())[i] == m);
                }
                assert(p.push(s.last()).last() == s.last());
            }
            assert(spec_dedup(s).to_set() =~= s.to_set());
        }
    }
}

/// Whether `v` holds `m`.
pub fn mods_contain(v: &Vec<Modifier>, m: Modifier) -> (r: bool)
    ensures
        r == v@.contains(m),
{
    let mut i: usize = 0;
    while i < v.len()
        invariant
            i <= v@.len(),
            forall|j: int| 0 <= j < i ==> v@[j] != m,
        decreases v@.len() - i,
    {
        if v[i] == m {
            return true;
        }
        i = i + 1;
    }
    false
}

/// Keeps the first occurrence of each modifier.
pub fn dedup_mods(v: Vec<Modifier>) -> (r: Vec<Modifier>)
    ensures
        r@ == spec_dedup(v@),
{
    let mut r: Vec<Modifier> = Vec::new();
    let mut i: usize = 0;
    while i < v.len()
        invariant
            i <= v@.len(),
            r@ == spec_dedup(v@.take(i as int)),
        decreases v@.len() - i,
    {
        proof {
            assert(v@.take(i + 1).drop_last() =~= v@.take(i as int));
            assert(v@.take(i + 1).last() == v@[i as int]);
        }
        if !mods_contain(&r, v[i]) {
            r.push(v[i]);
        }
        i = i + 1;
    }
    proof {
        assert(v@.take(v@.len() as int) =~= v@);
    }
    r
}

impl KeyBinding {
    /// A binding of the given keysym and modifiers, with both prefix
    /// flags off; the modifiers are kept as a set, first occurrences in
    /// order.
    pub fn new(keysym: u16, modifiers: Vec<Modifier>) -> (r: Self)
        ensures
            r.keysym == keysym,
            r.modifiers@ == spec_dedup(modifiers@),
            no_dup_mods(r.modifiers@),
            r.modifiers@.to_set() == modifiers@.to_set(),
            !r.send,
            !r.on_release,
    {
        proof {
            lemma_dedup_props(modifiers@);
        }
        KeyBinding { keysym, modifiers: dedup_mods(modifiers), send: false, on_release: false }
    }

    /// The same binding, dispatching on release.
    pub fn on_release(self) -> (r: Self)
        ensures
            r == (Self { on_release: true, ..self }),
    {
        Self { on_release: true, ..self }
    }

    /// Set-based equality on the modifiers (order irrelevant), exact on
    /// the other fields.
    pub open spec fn spec_eq(self, other: Self) -> bool {
        kbv_eq(self@, other@)
    }
}

impl PartialEq for KeyBinding {
    fn eq(&self, other: &Self) -> bool {
        let mut all_in: bool = true;
        let mut i: usize = 0;
        while i < self.modifiers.len()
            invariant
                i <= self.modifiers@.len(),
                all_in == (forall|j: int|
                    0 <= j < i ==> other.modifiers@.contains(self.modifiers@[j])),
            decreases self.modifiers@.len() - i,
        {
            if !mods_contain(&other.modifiers, self.modifiers[i]) {
                all_in = false;
            }
            i = i + 1;
        }
        self.keysym == other.keysym && all_in && self.modifiers.len() == other.modifiers.len()
            && self.send == other.send && self.on_release == other.on_release
    }
}

impl vstd::std_specs::cmp::PartialEqSpecImpl for KeyBinding {
    open spec fn obeys_eq_spec() -> bool {
        true
    }

    open spec fn eq_spec(&self, other: &Self) -> bool {
        self.spec_eq(*other)
    }
}

impl Clone for KeyBinding {
    fn clone(&self) -> (r: Self)
        ensures
            r@ == self@,
    {
        let mut mods: Vec<Modifier> = Vec::new();
        let mut i: usize = 0;
        while i < self.modifiers.len()
            invariant
                i <= self.modifiers@.len(),
                mods@ =~= self.modifiers@.take(i as int),
            decreases self.modifiers@.len() - i,
        {
            mods.push(self.modifiers[i]);
            i = i + 1;
        }
        proof {
            assert(self.modifiers@.take(self.modifiers@.len() as int) =~= self.modifiers@);
        }
        let r = KeyBinding {
            keysym: self.keysym,
            modifiers: mods,
            send: self.send,
            on_release: self.on_release,
        };
        proof {
            assert(r@ =~= self@);
        }
        r
    }
}

/// An instruction a dispatched hotkey applies to the mode stack.
#[derive(Debug)]
pub enum ModeInstruction {
    Enter(String),
    Escape,
}

impl Clone for ModeInstruction {
    fn clone(&self) -> (r: Self)
        ensures
            instr_name(r) == instr_name(*self),
            r is Enter <==> *self is Enter,
    {
        match self {
            ModeInstruction::Enter(n) => ModeInstruction::Enter(n.clone()),
            ModeInstruction::Escape => ModeInstruction::Escape,
        }
    }
}

/// The name an `Enter` instruction carries; an `Escape` carries none.
pub open spec fn instr_name(i: ModeInstruction) -> Option<Seq<char>> {
    match i {
        ModeInstruction::Enter(n) => Some(n@),
        ModeInstruction::Escape => None,
    }
}

/// A configured hotkey: the chord, the shell command it dispatches, and
/// the mode-stack instructions applied when it fires.
#[derive(Debug)]
pub struct Hotkey {
    pub keybinding: KeyBinding,
    pub command: String,
    pub mode_instructions: Vec<ModeInstruction>,
}

/// Two instruction lists with the same meaning.
pub open spec fn instrs_equal(a: Seq<ModeInstruction>, b: Seq<ModeInstruction>) -> bool {
    a.len() == b.len() && forall|i: int|
        0 <= i < a.len() ==> instr_name(a[i]) == instr_name(#[trigger] b[i])
}

impl Hotkey {
    /// The hotkey for an already-built binding, with no mode
    /// instructions.
    pub fn from_keybinding(keybinding: KeyBinding, command: String) -> (r: Self)
        ensures
            r.keybinding == keybinding,
            r.command == command,
            r.mode_instructions@.len() == 0,
    {
        Hotkey { keybinding, command, mode_instructions: Vec::new() }
    }

    /// A hotkey built directly from a keysym and modifier list.
    pub fn new(keysym: u16, modifiers: Vec<Modifier>, command: String) -> (r: Self)
        ensures
            r.keybinding.keysym == keysym,
            r.keybinding.modifiers@ == spec_dedup(modifiers@),
            !r.keybinding.send,
            !r.keybinding.on_release,
            r.command == command,
            r.mode_instructions@.len() == 0,
    {
        Hotkey { keybinding: KeyBinding::new(keysym, modifiers), command, mode_instructions: Vec::new() }
    }
}

impl PartialEq for Hotkey {
    fn eq(&self, other: &Self) -> bool {
        let mut instrs_eq: bool = self.mode_instructions.len() == other.mode_instructions.len();
        let mut i: usize = 0;
        while instrs_eq && i < self.mode_instructions.len()
            invariant
                i <= self.mode_instructions@.len(),
                instrs_eq ==> self.mode_instructions@.len() == other.mode_instructions@.len(),
                instrs_eq == (self.mode_instructions@.len() == other.mode_instructions@.len()
                    && forall|j: int|
                    0 <= j < i ==> instr_name(self.mode_instructions@[j]) == instr_name(
                        #[trigger] other.mode_instructions@[j],
                    )),
            decreases self.mode_instructions@.len() - i,
        {
            let same = match (&self.mode_instructions[i], &other.mode_instructions[i]) {
                (ModeInstruction::Enter(a), ModeInstruction::Enter(b)) => *a == *b,
                (ModeInstruction::Escape, ModeInstruction::Escape) => true,
                _ => false,
            };
            proof {
                assert(same == (instr_name(self.mode_instructions@[i as int]) == instr_name(
                    other.mode_instructions@[i as int],
                )));
            }
            if !same {
                instrs_eq = false;
            }
            i = i + 1;
        }
        self.keybinding == other.keybinding && self.command == other.command && instrs_eq
    }
}

impl vstd::std_specs::cmp::PartialEqSpecImpl for Hotkey {
    open spec fn obeys_eq_spec() -> bool {
        true
    }

    open spec fn eq_spec(&self, other: &Self) -> bool {
        self.keybinding.spec_eq(other.keybinding) && self.command@ == other.command@
            && instrs_equal(self.mode_instructions@, other.mode_instructions@)
    }
}

impl Clone for Hotkey {
    fn clone(&self) -> (r: Self)
        ensures
            r@ == self@,
    {
        let mut instrs: Vec<ModeInstruction> = Vec::new();
        let mut i: usize = 0;
        while i < self.mode_instructions.len()
            invariant
                i <= self.mode_instructions@.len(),
                instrs@.len() == i,
                forall|j: int|
                    0 <= j < i ==> instr_name(#[trigger] instrs@[j]) == instr_name(
                        self.mode_instructions@[j],
                    ),
            decreases self.mode_instructions@.len() - i,
        {
            instrs.push(self.mode_instructions[i].clone());
            i = i + 1;
        }
        let r = Hotkey {
            keybinding: self.keybinding.clone(),
            command: self.command.clone(),
            mode_instructions: instrs,
        };
        proof {
            assert(r@.instrs =~= self@.instrs);
            assert(r@ =~= self@);
        }
        r
    }
}

// ---------------------------------------------------------------------------
// Mathematical views of the configured data
// ---------------------------------------------------------------------------

/// The model of a binding: the keysym, the modifier sequence, the flags.
#[verifier::ext_equal]
pub struct KeyBindingView {
    pub keysym: u16,
    pub modifiers: Seq<Modifier>,
    pub send: bool,
    pub on_release: bool,
}

impl View for KeyBinding {
    type V = KeyBindingView;

    open spec fn view(&self) -> KeyBindingView {
        KeyBindingView {
            keysym: self.keysym,
            modifiers: self.modifiers@,
            send: self.send,
            on_release: self.on_release,
        }
    }
}

/// The model of a hotkey; a mode instruction is modelled by its name —
/// `Some(name)` for `Enter(name)`, `None` for `Escape`.
#[verifier::ext_equal]
pub struct HotkeyView {
    pub binding: KeyBindingView,
    pub command: Seq<char>,
    pub instrs: Seq<Option<Seq<char>>>,
}

impl View for Hotkey {
    type V = HotkeyView;

    open spec fn view(&self) -> HotkeyView {
        HotkeyView {
            binding: self.keybinding@,
            command: self.command@,
            instrs: self.mode_instructions@.map_values(|i: ModeInstruction| instr_name(i)),
        }
    }
}

/// The model of a mode.
#[verifier::ext_equal]
pub struct ModeView {
    pub name: Seq<char>,
    pub hotkeys: Seq<HotkeyView>,
    pub unbinds: Seq<KeyBindingView>,
    pub swallow: bool,
    pub oneoff: bool,
}

impl View for Mode {
    type V = ModeView;

    open spec fn view(&self) -> ModeView {
        ModeView {
            name: self.name@,
            hotkeys: self.hotkeys@.map_values(|h: Hotkey| h@),
            unbinds: self.unbinds@.map_values(|b: KeyBinding| b@),
            swallow: self.options.swallow,
            oneoff: self.options.oneoff,
        }
    }
}

/// The models of a mode list.
pub open spec fn modes_views(modes: Seq<Mode>) -> Seq<ModeView> {
    modes.map_values(|m: Mode| m@)
}

/// Read access to the chord a binding or hotkey stands for.
pub trait Value {
    fn keysym(&self) -> u16;

    fn modifiers(&self) -> &Vec<Modifier>;

    fn is_send(&self) -> bool;

    fn is_on_release(&self) -> bool;
}

impl Value for KeyBinding {
    fn keysym(&self) -> (r: u16)
        ensures
            r == self.keysym,
    {
        self.keysym
    }

    fn modifiers(&self) -> (r: &Vec<Modifier>)
        ensures
            r == &self.modifiers,
    {
        &self.modifiers
    }

    fn is_send(&self) -> (r: bool)
        ensures
            r == self.send,
    {
        self.send
    }

    fn is_on_release(&self) -> (r: bool)
        ensures
            r == self.on_release,
    {
        self.on_release
    }
}

impl Value for Hotkey {
    fn keysym(&self) -> (r: u16)
        ensures
            r == self.keybinding.keysym,
    {
        self.keybinding.keysym
    }

    fn modifiers(&self) -> (r: &Vec<Modifier>)
        ensures
            r == &self.keybinding.modifiers,
    {
        &self.keybinding.modifiers
    }

    fn is_send(&self) -> (r: bool)
        ensures
            r == self.keybinding.send,
    {
        self.keybinding.send
    }

    fn is_on_release(&self) -> (r: bool)
        ensures
            r == self.keybinding.on_release,
    {
        self.keybinding.on_release
    }
}

/// The prefix flags a binding or hotkey can carry.
pub trait Prefix {
    fn send(self) -> Self;

    fn on_release(self) -> Self;
}

impl Prefix for KeyBinding {
    fn send(self) -> (r: Self)
        ensures
            r == (Self { send: true, ..self }),
    {
        Self { send: true, ..self }
    }

    fn on_release(self) -> (r: Self)
        ensures
            r == (Self { on_release: true, ..self }),
    {
        Self { on_release: true, ..self }
    }
}

impl Prefix for Hotkey {
    fn send(self) -> (r: Self)
        ensures
            r == (Self { keybinding: KeyBinding { send: true, ..self.keybinding }, ..self }),
    {
        Self { keybinding: KeyBinding { send: true, ..self.keybinding }, ..self }
    }

    fn on_release(self) -> (r: Self)
        ensures
            r == (Self { keybinding: KeyBinding { on_release: true, ..self.keybinding }, ..self }),
    {
        Self { keybinding: KeyBinding { on_release: true, ..self.keybinding }, ..self }
    }
}

// ---------------------------------------------------------------------------
// Modes
// ---------------------------------------------------------------------------

/// The options of a mode: `swallow` withholds all unmatched input from
/// the virtual output while the mode is active; `oneoff` pops the mode
/// after its first dispatch.
#[derive(Debug)]
pub struct ModeOptions {
    pub swallow: bool,
    pub oneoff: bool,
}

impl Default for ModeOptions {
    fn default() -> (r: Self)
        ensures
            !r.swallow,
            !r.oneoff,
    {
        ModeOptions { swallow: false, oneoff: false }
    }
}

impl Clone for ModeOptions {
    fn clone(&self) -> (r: Self)
        ensures
            r.swallow == self.swallow,
            r.oneoff == self.oneoff,
    {
        ModeOptions { swallow: self.swallow, oneoff: self.oneoff }
    }
}

/// A named keymap: its hotkeys, the bindings it suppresses, and its
/// options. The default mode is named "normal" and always stands at
/// index 0 of the mode list.
#[derive(Debug)]
pub struct Mode {
    pub name: String,
    pub hotkeys: Vec<Hotkey>,
    pub unbinds: Vec<KeyBinding>,
    pub options: ModeOptions,
}

impl Default for Mode {
    fn default() -> (r: Self)
        ensures
            r.name@ == "normal"@,
            r.hotkeys@.len() == 0,
            r.unbinds@.len() == 0,
            !r.options.swallow,
            !r.options.oneoff,
    {
        Mode {
            name: String::from_str("normal"),
            hotkeys: Vec::new(),
            unbinds: Vec::new(),
            options: ModeOptions::default(),
        }
    }
}

// ---------------------------------------------------------------------------
// Configuration files and their imports
// ---------------------------------------------------------------------------

/// One configuration file: where it stands, its text, and the paths its
/// `include` lines name.
#[derive(Debug)]
pub struct Config {
    pub path: String,
    pub contents: String,
    pub imports: Vec<String>,
}

/// The import named by one line: the token after the first blank, on a
/// line whose first blank-separated word is `include`.
pub open spec fn spec_line_import(line: Seq<char>) -> Option<Seq<char>> {
    let words = spec_split(line, ' ');
    if words[0] == "include"@ && words.len() >= 2 {
        Some(words[1])
    } else {
        None
    }
}

/// The imports of a file's text, in order of appearance.
pub open spec fn spec_imports(lines: Seq<Seq<char>>) -> Seq<Seq<char>>
    decreases lines.len(),
{
    if lines.len() == 0 {
        Seq::empty()
    } else {
        let rest = spec_imports(lines.drop_first());
        match spec_line_import(lines[0]) {
            Some(p) => seq![p] + rest,
            None => rest,
        }
    }
}

proof fn lemma_imports_snoc(lines: Seq<Seq<char>>, last: Seq<char>)
    ensures
        spec_line_import(last) is Some ==> spec_imports(lines.push(last)) == spec_imports(
            lines,
        ).push(spec_line_import(last)->Some_0),
        spec_line_import(last) is None ==> spec_imports(lines.push(last)) == spec_imports(lines),
    decreases lines.len(),
{
    assert(spec_imports(Seq::<Seq<char>>::empty()) =~= Seq::<Seq<char>>::empty());
    if lines.len() == 0 {
        assert(lines.push(last).drop_first() =~= Seq::<Seq<char>>::empty());
        assert(lines.push(last)[0] == last);
        match spec_line_import(last) {
            Some(p) => {
                assert(spec_imports(lines.push(last)) =~= spec_imports(lines).push(p));
            },
            None => {
                assert(spec_imports(lines.push(last)) =~= spec_imports(lines));
            },
        }
    } else {
        assert(lines.push(last).drop_first() =~= lines.drop_first().push(last));
        assert(lines.push(last)[0] == lines[0]);
        lemma_imports_snoc(lines.drop_first(), last);
        match spec_line_import(last) {
            Some(q) => {
                match spec_line_import(lines[0]) {
                    Some(p) => {
                        assert(spec_imports(lines.push(last)) =~= spec_imports(lines).push(q));
                    },
                    None => {
                        assert(spec_imports(lines.push(last)) =~= spec_imports(lines).push(q));
                    },
                }
            },
            None => {
                match spec_line_import(lines[0]) {
                    Some(p) => {
                        assert(spec_imports(lines.push(last)) =~= spec_imports(lines));
                    },
                    None => {
                        assert(spec_imports(lines.push(last)) =~= spec_imports(lines));
                    },
                }
            },
        }
    }
}

impl Config {
    /// The paths that `include` lines of the given text name, in order.
    pub fn get_imports(contents: &str) -> (r: Result<Vec<String>, Error>)
        ensures
            r is Ok,
            str_views(r->Ok_0@) == spec_imports(spec_split(contents@, '\n')),
    {
        let chars = chars_of(contents);
        let lines = split(&chars, '\n');
        let mut imports: Vec<String> = Vec::new();
        let mut i: usize = 0;
        let ghost all_lines = spec_split(contents@, '\n');
        while i < lines.len()
            invariant
                i <= lines@.len(),
                views(lines@) == all_lines,
                str_views(imports@) =~= spec_imports(all_lines.take(i as int)),
            decreases lines@.len() - i,
        {
            let words = split(&lines[i], ' ');
            let ghost spec_words = spec_split(all_lines[i as int], ' ');
            let include_word = chars_of("include");
            proof {
                assert(views(words@) == spec_words);
                assert(words@[0]@ == spec_words[0]);
                assert(all_lines.take(i + 1).drop_last() =~= all_lines.take(i as int));
                assert(all_lines.take(i + 1) =~= all_lines.take(i as int).push(
                    all_lines[i as int],
                ));
                lemma_imports_snoc(all_lines.take(i as int), all_lines[i as int]);
            }
            if crate::text::text_eq(&words[0], &include_word) && words.len() >= 2 {
                imports.push(string_from_chars(&words[1]));
                proof {
                    assert(words@[1]@ == spec_words[1]);
                    assert(str_views(imports@) =~= spec_imports(all_lines.take(i + 1)));
                }
            } else {
                proof {
                    assert(str_views(imports@) =~= spec_imports(all_lines.take(i + 1)));
                }
            }
            i = i + 1;
        }
        proof {
            assert(all_lines.take(all_lines.len() as int) =~= all_lines);
        }
        Ok(imports)
    }
}

} // verus!
