use vstd::prelude::*;

use crate::models::{HotkeyBinding, HotkeyBindingView, ManualHotkeys};
use crate::text::{
    ascii_lower, ascii_upper, char_to_ascii_upper, chars_of, lemma_lower_all_drop,
    lemma_lower_all_idempotent, lemma_lower_all_push, lemma_trim_lower_commute, lower_all,
    lower_chars, trim, trim_chars,
};

verus! {

/// The identifiers under which the two hotkeys are registered with Windows.
pub const HOTKEY_DIM_MORE_ID: i32 = 2001;
pub const HOTKEY_DIM_LESS_ID: i32 = 2002;

/// The Win32 modifier flags that `RegisterHotKey` takes.
pub const MOD_ALT: u32 = 0x0001;
pub const MOD_CONTROL: u32 = 0x0002;
pub const MOD_SHIFT: u32 = 0x0004;
pub const MOD_WIN: u32 = 0x0008;

#[derive(Clone, Copy, Debug, PartialEq, Eq, Structural)]
pub enum HotkeyAction {
    DimMore,
    DimLess,
}

/// What the hotkey thread is told to do.
pub enum HotkeyCommand {
    UpdateBindings(ManualHotkeys),
    Shutdown,
}

/// `std::sync::mpsc::Sender`, carried as an opaque value.
#[verifier::external_type_specification]
#[verifier::external_body]
#[verifier::reject_recursive_types(T)]
pub struct ExSender<T>(std::sync::mpsc::Sender<T>);

/// `std::sync::mpsc::Sender::send`, with its result dropped: whether the hotkey
/// thread is still there to receive the command is not known here, so nothing
/// is stated.
#[verifier::external_body]
fn send_command(sender: &std::sync::mpsc::Sender<HotkeyCommand>, command: HotkeyCommand) {
    let _ = sender.send(command);
}

/// The handle through which the app updates the registered hotkeys; the thread
/// that owns the registrations holds the receiving end of `sender`.
pub struct HotkeyManager {
    sender: std::sync::mpsc::Sender<HotkeyCommand>,
}

impl HotkeyManager {
    /// The channel that commands go through.
    pub closed spec fn channel(&self) -> std::sync::mpsc::Sender<HotkeyCommand> {
        self.sender
    }

    pub fn with_sender(sender: std::sync::mpsc::Sender<HotkeyCommand>) -> (r: HotkeyManager)
        ensures
            r.channel() == sender,
    {
        HotkeyManager { sender }
    }

    /// Asks the hotkey thread to register `hotkeys` in place of the current bindings:
    /// hands the channel the command that `update_bindings_command` builds.
    pub fn update_bindings(&self, hotkeys: ManualHotkeys) {
        let command = update_bindings_command(hotkeys);
        send_command(&self.sender, command);
    }

    /// Asks the hotkey thread to drop its registrations and stop: hands the
    /// channel the command that `shutdown_command` builds.
    pub fn shutdown(&self) {
        let command = shutdown_command();
        send_command(&self.sender, command);
    }
}

/// The command that asks the hotkey thread to register exactly `hotkeys`.
pub fn update_bindings_command(hotkeys: ManualHotkeys) -> (c: HotkeyCommand)
    ensures
        c matches HotkeyCommand::UpdateBindings(h) && h@ == hotkeys@,
{
    HotkeyCommand::UpdateBindings(hotkeys)
}

/// The command that asks the hotkey thread to stop.
pub fn shutdown_command() -> (c: HotkeyCommand)
    ensures
        c is Shutdown,
{
    HotkeyCommand::Shutdown
}

pub open spec fn is_separator(c: char) -> bool {
    c == '+' || c == ','
}

/// The flag that a lower-cased modifier name stands for.
pub open spec fn modifier_flag(name: Seq<char>) -> Option<u32> {
    if name == seq!['a', 'l', 't'] {
        Some(MOD_ALT)
    } else if name == seq!['c', 't', 'r', 'l'] || name == seq!['c', 'o', 'n', 't', 'r', 'o', 'l'] {
        Some(MOD_CONTROL)
    } else if name == seq!['s', 'h', 'i', 'f', 't'] {
        Some(MOD_SHIFT)
    } else if name == seq!['w', 'i', 'n'] || name == seq!['w', 'i', 'n', 'd', 'o', 'w', 's'] {
        Some(MOD_WIN)
    } else {
        None
    }
}

/// Which modifiers the pieces read so far name, and whether any piece was not empty.
#[derive(Clone, Copy)]
pub struct ModifierScan {
    pub saw_token: bool,
    pub alt: bool,
    pub control: bool,
    pub shift: bool,
    pub win: bool,
}

/// Folds one piece of a modifier list into a scan: an empty piece (after trimming)
/// changes nothing; a piece that names no modifier ends the scan with `None`.
pub open spec fn fold_token(token: Seq<char>, st: ModifierScan) -> Option<ModifierScan> {
    let name = lower_all(trim(token));
    if name.len() == 0 {
        Some(st)
    } else {
        match modifier_flag(name) {
            None => None,
            Some(f) => Some(ModifierScan {
                saw_token: true,
                alt: st.alt || f == MOD_ALT,
                control: st.control || f == MOD_CONTROL,
                shift: st.shift || f == MOD_SHIFT,
                win: st.win || f == MOD_WIN,
            }),
        }
    }
}

pub open spec fn empty_scan() -> ModifierScan {
    ModifierScan { saw_token: false, alt: false, control: false, shift: false, win: false }
}

/// Reads `s` piece by piece, pieces being split at `+` and `,`: the scan of the
/// pieces that a separator has closed, and the piece still open.
pub open spec fn scan_chars(s: Seq<char>) -> (Option<ModifierScan>, Seq<char>)
    decreases s.len(),
{
    if s.len() == 0 {
        (Some(empty_scan()), Seq::<char>::empty())
    } else {
        let (st, token) = scan_chars(s.drop_last());
        if is_separator(s.last()) {
            (
                match st {
                    None => None,
                    Some(x) => fold_token(token, x),
                },
                Seq::<char>::empty(),
            )
        } else {
            (st, token.push(s.last()))
        }
    }
}

pub proof fn lemma_scan_chars_none_stays(s: Seq<char>, j: int)
    requires
        0 <= j <= s.len(),
        scan_chars(s.take(j)).0 is None,
    ensures
        scan_chars(s).0 is None,
    decreases s.len() - j,
{
    if j < s.len() {
        assert(s.take(j + 1).drop_last() =~= s.take(j));
        lemma_scan_chars_none_stays(s, j + 1);
    } else {
        assert(s.take(j) =~= s);
    }
}

/// The union of the flags that a scan found.
pub open spec fn scan_flags(st: ModifierScan) -> u32 {
    ((if st.alt { MOD_ALT } else { 0 }) + (if st.control { MOD_CONTROL } else { 0 })
        + (if st.shift { MOD_SHIFT } else { 0 }) + (if st.win { MOD_WIN } else { 0 })) as u32
}

/// What `parse_modifier_flags` reads from a modifier list.
pub open spec fn parsed_modifiers(text: Seq<char>) -> Option<u32> {
    let (st, token) = scan_chars(text);
    match st {
        None => None,
        Some(x) => match fold_token(token, x) {
            Some(fin) => if fin.saw_token { Some(scan_flags(fin)) } else { None },
            None => None,
        },
    }
}

fn chars_equal(v: &Vec<char>, w: &[char]) -> (r: bool)
    ensures
        r == (v@ == w@),
{
    if v.len() != w.len() {
        return false;
    }
    let mut i: usize = 0;
    while i < v.len()
        invariant
            v@.len() == w@.len(),
            i <= v@.len(),
            forall|k: int| 0 <= k < i ==> v@[k] == w@[k],
        decreases v.len() - i,
    {
        if v[i] != w[i] {
            return false;
        }
        i = i + 1;
    }
    assert(v@ =~= w@);
    true
}

fn modifier_flag_of(name: &Vec<char>) -> (r: Option<u32>)
    ensures
        r == modifier_flag(name@),
{
    if chars_equal(name, &['a', 'l', 't']) {
        Some(MOD_ALT)
    } else if chars_equal(name, &['c', 't', 'r', 'l']) || chars_equal(name, &['c', 'o', 'n', 't', 'r', 'o', 'l']) {
        Some(MOD_CONTROL)
    } else if chars_equal(name, &['s', 'h', 'i', 'f', 't']) {
        Some(MOD_SHIFT)
    } else if chars_equal(name, &['w', 'i', 'n']) || chars_equal(name, &['w', 'i', 'n', 'd', 'o', 'w', 's']) {
        Some(MOD_WIN)
    } else {
        None
    }
}

/// Folds one token into a scan, as `modifier_scan` does.
fn scan_token(token: &Vec<char>, st: ModifierScan) -> (r: Option<ModifierScan>)
    ensures
        r == fold_token(token@, st),
{
    let trimmed = trim_chars(token);
    let name = lower_chars(&trimmed);
    if name.len() == 0 {
        return Some(st);
    }
    match modifier_flag_of(&name) {
        None => None,
        Some(f) => Some(ModifierScan {
            saw_token: true,
            alt: st.alt || f == MOD_ALT,
            control: st.control || f == MOD_CONTROL,
            shift: st.shift || f == MOD_SHIFT,
            win: st.win || f == MOD_WIN,
        }),
    }
}

/// Reads a modifier list such as `"Alt"`, `"Control, Shift"` or `"ctrl+win"`:
/// pieces between `+` and `,` are trimmed and read without regard to case; empty
/// pieces are skipped; `alt`, `ctrl`/`control`, `shift` and `win`/`windows` set
/// their flag. `None` where a piece names no modifier or no piece names one.
pub fn parse_modifier_flags(text: &str) -> (r: Option<u32>)
    ensures
        r == parsed_modifiers(text@),
{
    let chars = chars_of(text);
    let ghost s = chars@;
    let mut st = ModifierScan { saw_token: false, alt: false, control: false, shift: false, win: false };
    let mut token: Vec<char> = Vec::new();
    let mut i: usize = 0;
    assert(s.take(0) =~= Seq::<char>::empty());
    while i < chars.len()
        invariant
            s == chars@,
            s == text@,
            i <= s.len(),
            scan_chars(s.take(i as int)) == (Some(st), token@),
        decreases chars.len() - i,
    {
        let c = chars[i];
        assert(s.take(i as int + 1).drop_last() =~= s.take(i as int));
        assert(s.take(i as int + 1).last() == c);
        if c == '+' || c == ',' {
            match scan_token(&token, st) {
                None => {
                    proof {
                        lemma_scan_chars_none_stays(s, i as int + 1);
                    }
                    return None;
                },
                Some(next_st) => {
                    st = next_st;
                },
            }
            token = Vec::new();
        } else {
            token.push(c);
        }
        i = i + 1;
    }
    assert(s.take(s.len() as int) =~= s);
    let last = scan_token(&token, st);
    match last {
        None => None,
        Some(fin) => {
            if fin.saw_token {
                Some(
                    (if fin.alt { MOD_ALT } else { 0 }) + (if fin.control { MOD_CONTROL } else { 0 })
                        + (if fin.shift { MOD_SHIFT } else { 0 }) + (if fin.win { MOD_WIN } else { 0 }),
                )
            } else {
                None
            }
        },
    }
}


/// The Win32 virtual-key code of a lower-cased key name offered in the settings.
pub open spec fn named_key_code(name: Seq<char>) -> Option<u32> {
    if name == seq!['p', 'a', 'g', 'e', 'u', 'p'] {
        Some(0x21)
    } else if name == seq!['p', 'a', 'g', 'e', 'd', 'o', 'w', 'n'] {
        Some(0x22)
    } else if name == seq!['e', 'n', 'd'] {
        Some(0x23)
    } else if name == seq!['h', 'o', 'm', 'e'] {
        Some(0x24)
    } else if name == seq!['l', 'e', 'f', 't'] {
        Some(0x25)
    } else if name == seq!['u', 'p'] {
        Some(0x26)
    } else if name == seq!['r', 'i', 'g', 'h', 't'] {
        Some(0x27)
    } else if name == seq!['d', 'o', 'w', 'n'] {
        Some(0x28)
    } else if name == seq!['i', 'n', 's', 'e', 'r', 't'] {
        Some(0x2D)
    } else if name == seq!['d', 'e', 'l', 'e', 't', 'e'] {
        Some(0x2E)
    } else if name == seq!['f', '1'] {
        Some(0x70)
    } else if name == seq!['f', '2'] {
        Some(0x71)
    } else if name == seq!['f', '3'] {
        Some(0x72)
    } else if name == seq!['f', '4'] {
        Some(0x73)
    } else if name == seq!['f', '5'] {
        Some(0x74)
    } else if name == seq!['f', '6'] {
        Some(0x75)
    } else if name == seq!['f', '7'] {
        Some(0x76)
    } else if name == seq!['f', '8'] {
        Some(0x77)
    } else if name == seq!['f', '9'] {
        Some(0x78)
    } else if name == seq!['f', '1', '0'] {
        Some(0x79)
    } else if name == seq!['f', '1', '1'] {
        Some(0x7A)
    } else if name == seq!['f', '1', '2'] {
        Some(0x7B)
    } else {
        None
    }
}

fn named_key_code_of(name: &Vec<char>) -> (r: Option<u32>)
    ensures
        r == named_key_code(name@),
{
    if chars_equal(name, &['p', 'a', 'g', 'e', 'u', 'p']) {
        Some(0x21)
    } else if chars_equal(name, &['p', 'a', 'g', 'e', 'd', 'o', 'w', 'n']) {
        Some(0x22)
    } else if chars_equal(name, &['e', 'n', 'd']) {
        Some(0x23)
    } else if chars_equal(name, &['h', 'o', 'm', 'e']) {
        Some(0x24)
    } else if chars_equal(name, &['l', 'e', 'f', 't']) {
        Some(0x25)
    } else if chars_equal(name, &['u', 'p']) {
        Some(0x26)
    } else if chars_equal(name, &['r', 'i', 'g', 'h', 't']) {
        Some(0x27)
    } else if chars_equal(name, &['d', 'o', 'w', 'n']) {
        Some(0x28)
    } else if chars_equal(name, &['i', 'n', 's', 'e', 'r', 't']) {
        Some(0x2D)
    } else if chars_equal(name, &['d', 'e', 'l', 'e', 't', 'e']) {
        Some(0x2E)
    } else if chars_equal(name, &['f', '1']) {
        Some(0x70)
    } else if chars_equal(name, &['f', '2']) {
        Some(0x71)
    } else if chars_equal(name, &['f', '3']) {
        Some(0x72)
    } else if chars_equal(name, &['f', '4']) {
        Some(0x73)
    } else if chars_equal(name, &['f', '5']) {
        Some(0x74)
    } else if chars_equal(name, &['f', '6']) {
        Some(0x75)
    } else if chars_equal(name, &['f', '7']) {
        Some(0x76)
    } else if chars_equal(name, &['f', '8']) {
        Some(0x77)
    } else if chars_equal(name, &['f', '9']) {
        Some(0x78)
    } else if chars_equal(name, &['f', '1', '0']) {
        Some(0x79)
    } else if chars_equal(name, &['f', '1', '1']) {
        Some(0x7A)
    } else if chars_equal(name, &['f', '1', '2']) {
        Some(0x7B)
    } else {
        None
    }
}

pub open spec fn is_upper_letter_or_digit(c: char) -> bool {
    ('A' <= c && c <= 'Z') || ('0' <= c && c <= '9')
}

/// What `virtual_key_code` reads from a key name: a single letter or digit (in
/// either case) is its own upper-case code; otherwise a named key, in any case.
pub open spec fn key_code(key: Seq<char>) -> Option<u32> {
    let t = trim(key);
    if t.len() == 1 && is_upper_letter_or_digit(ascii_upper(t[0])) {
        Some(ascii_upper(t[0]) as u32)
    } else {
        named_key_code(lower_all(t))
    }
}

/// The Win32 virtual-key code of a key name: a single letter or digit, or one of
/// PageUp, PageDown, End, Home, Left, Up, Right, Down, Insert, Delete and F1..F12,
/// after trimming and without regard to case.
pub fn virtual_key_code(key: &str) -> (r: Option<u32>)
    ensures
        r == key_code(key@),
{
    let chars = chars_of(key);
    let normalized = trim_chars(&chars);
    if normalized.len() == 1 {
        let c = char_to_ascii_upper(normalized[0]);
        if ('A' <= c && c <= 'Z') || ('0' <= c && c <= '9') {
            return Some(c as u32);
        }
    }
    let lowered = lower_chars(&normalized);
    named_key_code_of(&lowered)
}

/// What becomes of one binding when the hotkeys are registered.
#[derive(Clone, Copy, Debug, PartialEq, Eq, Structural)]
pub enum BindingOutcome {
    /// The binding is switched off.
    Disabled,
    /// The modifier list does not parse.
    InvalidModifiers,
    /// The key is not one that can be bound.
    UnsupportedKey,
    /// Register the hotkey with these modifier flags and virtual-key code.
    Register { modifiers: u32, virtual_key: u32 },
}

pub open spec fn binding_outcome(b: HotkeyBindingView) -> BindingOutcome {
    if !b.enabled {
        BindingOutcome::Disabled
    } else {
        match parsed_modifiers(b.modifiers) {
            None => BindingOutcome::InvalidModifiers,
            Some(m) => match key_code(b.key) {
                None => BindingOutcome::UnsupportedKey,
                Some(k) => BindingOutcome::Register { modifiers: m, virtual_key: k },
            },
        }
    }
}

/// Decides how a binding is registered: skipped when switched off, refused when
/// its modifiers or key cannot be read, else registered with their codes.
pub fn register_binding(binding: &HotkeyBinding) -> (r: BindingOutcome)
    ensures
        r == binding_outcome(binding@),
{
    if !binding.enabled {
        return BindingOutcome::Disabled;
    }
    let modifiers = match parse_modifier_flags(binding.modifiers.as_str()) {
        Some(m) => m,
        None => {
            return BindingOutcome::InvalidModifiers;
        },
    };
    match virtual_key_code(binding.key.as_str()) {
        Some(virtual_key) => BindingOutcome::Register { modifiers, virtual_key },
        None => BindingOutcome::UnsupportedKey,
    }
}

/// The registrations for a pair of bindings, made afresh: dim-more under
/// `HOTKEY_DIM_MORE_ID`, then dim-less under `HOTKEY_DIM_LESS_ID`.
pub fn update_registrations(hotkeys: &ManualHotkeys) -> (r: (BindingOutcome, BindingOutcome))
    ensures
        r == (binding_outcome(hotkeys@.dim_more), binding_outcome(hotkeys@.dim_less)),
{
    (register_binding(&hotkeys.dim_more), register_binding(&hotkeys.dim_less))
}

/// What the hotkey thread does with a command.
#[derive(Clone, Copy, Debug, PartialEq, Eq, Structural)]
pub enum CommandOutcome {
    /// Drop all registrations and make these.
    Reregister { dim_more: BindingOutcome, dim_less: BindingOutcome },
    /// Drop all registrations and stop.
    Stop,
}

/// Decides what the hotkey thread does with a command: new bindings replace the
/// registrations and the thread goes on; shutdown stops it.
pub fn handle_command(command: &HotkeyCommand) -> (r: CommandOutcome)
    ensures
        match command {
            HotkeyCommand::UpdateBindings(h) => r == CommandOutcome::Reregister {
                dim_more: binding_outcome(h@.dim_more),
                dim_less: binding_outcome(h@.dim_less),
            },
            HotkeyCommand::Shutdown => r == CommandOutcome::Stop,
        },
{
    match command {
        HotkeyCommand::UpdateBindings(hotkeys) => {
            let (dim_more, dim_less) = update_registrations(hotkeys);
            CommandOutcome::Reregister { dim_more, dim_less }
        },
        HotkeyCommand::Shutdown => CommandOutcome::Stop,
    }
}

/// The action of a `WM_HOTKEY` message with identifier `id`; other identifiers are ignored.
pub fn action_for_hotkey_id(id: i32) -> (r: Option<HotkeyAction>)
    ensures
        r == (if id == HOTKEY_DIM_MORE_ID {
            Some(HotkeyAction::DimMore)
        } else if id == HOTKEY_DIM_LESS_ID {
            Some(HotkeyAction::DimLess)
        } else {
            None
        }),
{
    if id == HOTKEY_DIM_MORE_ID {
        Some(HotkeyAction::DimMore)
    } else if id == HOTKEY_DIM_LESS_ID {
        Some(HotkeyAction::DimLess)
    } else {
        None
    }
}


proof fn lemma_fold_token_lower(token: Seq<char>, st: ModifierScan)
    ensures
        fold_token(lower_all(token), st) == fold_token(token, st),
{
    lemma_trim_lower_commute(token);
    lemma_lower_all_idempotent(trim(token));
}

proof fn lemma_scan_chars_lower(s: Seq<char>)
    ensures
        scan_chars(lower_all(s)).0 == scan_chars(s).0,
        scan_chars(lower_all(s)).1 == lower_all(scan_chars(s).1),
    decreases s.len(),
{
    if s.len() == 0 {
        assert(lower_all(s) =~= s);
        assert(lower_all(Seq::<char>::empty()) =~= Seq::<char>::empty());
    } else {
        lemma_lower_all_drop(s);
        lemma_scan_chars_lower(s.drop_last());
        let (st, token) = scan_chars(s.drop_last());
        if let Some(x) = st {
            lemma_fold_token_lower(token, x);
        }
        lemma_lower_all_push(token, s.last());
        assert(lower_all(Seq::<char>::empty()) =~= Seq::<char>::empty());
    }
}

/// Modifier lists are read without regard to letter case.
pub proof fn law_modifiers_ignore_case(text: Seq<char>)
    ensures
        parsed_modifiers(lower_all(text)) == parsed_modifiers(text),
{
    lemma_scan_chars_lower(text);
    let (st, token) = scan_chars(text);
    if let Some(x) = st {
        lemma_fold_token_lower(token, x);
    }
}

/// Key names are read without regard to letter case.
pub proof fn law_key_names_ignore_case(key: Seq<char>)
    ensures
        key_code(lower_all(key)) == key_code(key),
{
    lemma_trim_lower_commute(key);
    lemma_lower_all_idempotent(trim(key));
    let t = trim(key);
    if t.len() > 0 {
        assert(lower_all(t)[0] == ascii_lower(t[0]));
    }
}

/// A modifier list that parses sets at least one of the four flags and nothing else.
pub proof fn law_parsed_modifiers_are_flags(text: Seq<char>)
    ensures
        parsed_modifiers(text) matches Some(m) ==> 1 <= m <= 15,
{
    let (st, token) = scan_chars(text);
    if let Some(x) = st {
        if let Some(fin) = fold_token(token, x) {
            if fin.saw_token {
                lemma_scan_saw_token_has_flag(text);
                lemma_fold_token_keeps_flag(token, x);
            }
        }
    }
}

/// Once a piece has named a modifier, some flag is set.
proof fn lemma_scan_saw_token_has_flag(s: Seq<char>)
    ensures
        scan_chars(s).0 matches Some(st) ==> (st.saw_token ==> st.alt || st.control || st.shift || st.win),
    decreases s.len(),
{
    if s.len() > 0 {
        lemma_scan_saw_token_has_flag(s.drop_last());
        let (st, token) = scan_chars(s.drop_last());
        if let Some(x) = st {
            lemma_fold_token_keeps_flag(token, x);
        }
    }
}

proof fn lemma_fold_token_keeps_flag(token: Seq<char>, st: ModifierScan)
    requires
        st.saw_token ==> st.alt || st.control || st.shift || st.win,
    ensures
        fold_token(token, st) matches Some(r) ==> (r.saw_token ==> r.alt || r.control || r.shift || r.win),
{
}

/// What a piece of a modifier list names, once trimmed and lower-cased.
pub open spec fn token_name(token: Seq<char>) -> Seq<char> {
    lower_all(trim(token))
}

pub open spec fn has_no_separator(token: Seq<char>) -> bool {
    forall|i: int| 0 <= i < token.len() ==> !is_separator(#[trigger] token[i])
}

/// The modifier list made of `tokens` joined by `+`.
pub open spec fn joined_with_plus(tokens: Seq<Seq<char>>) -> Seq<char>
    decreases tokens.len(),
{
    if tokens.len() == 0 {
        Seq::<char>::empty()
    } else if tokens.len() == 1 {
        tokens[0]
    } else {
        joined_with_plus(tokens.drop_last()) + seq!['+'] + tokens.last()
    }
}

/// Folds one piece into a scan that may already have ended.
pub open spec fn step_token(token: Seq<char>, st: Option<ModifierScan>) -> Option<ModifierScan> {
    match st {
        None => None,
        Some(x) => fold_token(token, x),
    }
}

/// Folds the pieces in order, from an empty scan.
pub open spec fn fold_tokens(tokens: Seq<Seq<char>>) -> Option<ModifierScan>
    decreases tokens.len(),
{
    if tokens.len() == 0 {
        Some(empty_scan())
    } else {
        step_token(tokens.last(), fold_tokens(tokens.drop_last()))
    }
}

/// Whether some piece is not empty and names no modifier.
pub open spec fn refuses_token(tokens: Seq<Seq<char>>) -> bool {
    exists|i: int| 0 <= i < tokens.len() && (#[trigger] token_name(tokens[i])).len() > 0
        && modifier_flag(token_name(tokens[i])) is None
}

/// Whether some piece names the modifier `flag`.
pub open spec fn names_modifier(tokens: Seq<Seq<char>>, flag: u32) -> bool {
    exists|i: int| 0 <= i < tokens.len() && modifier_flag(#[trigger] token_name(tokens[i])) == Some(flag)
}

/// Whether some piece is not empty.
pub open spec fn has_named_token(tokens: Seq<Seq<char>>) -> bool {
    exists|i: int| 0 <= i < tokens.len() && (#[trigger] token_name(tokens[i])).len() > 0
}

/// The scan of a list of pieces, told by which pieces occur in it and not by
/// their order or repeats.
pub open spec fn token_set_scan(tokens: Seq<Seq<char>>) -> Option<ModifierScan> {
    if refuses_token(tokens) {
        None
    } else {
        Some(ModifierScan {
            saw_token: has_named_token(tokens),
            alt: names_modifier(tokens, MOD_ALT),
            control: names_modifier(tokens, MOD_CONTROL),
            shift: names_modifier(tokens, MOD_SHIFT),
            win: names_modifier(tokens, MOD_WIN),
        })
    }
}

proof fn lemma_fold_tokens_set(tokens: Seq<Seq<char>>)
    ensures
        fold_tokens(tokens) == token_set_scan(tokens),
    decreases tokens.len(),
{
    if tokens.len() > 0 {
        let t = tokens.drop_last();
        let last = tokens.last();
        lemma_fold_tokens_set(t);
        assert(tokens[tokens.len() - 1] == last);
        assert forall|i: int| 0 <= i < t.len() implies #[trigger] t[i] == tokens[i] by {}
        let name = token_name(last);
        if refuses_token(t) {
            let i = choose|i: int| 0 <= i < t.len() && (#[trigger] token_name(t[i])).len() > 0
                && modifier_flag(token_name(t[i])) is None;
            assert(token_name(tokens[i]).len() > 0 && modifier_flag(token_name(tokens[i])) is None);
        } else if name.len() == 0 {
            assert(modifier_flag(name) is None);
            assert(!refuses_token(tokens)) by {
                if refuses_token(tokens) {
                    let i = choose|i: int| 0 <= i < tokens.len() && (#[trigger] token_name(tokens[i])).len() > 0
                        && modifier_flag(token_name(tokens[i])) is None;
                    if i < t.len() {
                        assert(token_name(t[i]) == token_name(tokens[i]));
                    }
                }
            }
            assert(has_named_token(tokens) == has_named_token(t)) by {
                if has_named_token(tokens) {
                    let i = choose|i: int| 0 <= i < tokens.len() && (#[trigger] token_name(tokens[i])).len() > 0;
                    if i < t.len() {
                        assert(token_name(t[i]) == token_name(tokens[i]));
                    }
                }
                if has_named_token(t) {
                    let i = choose|i: int| 0 <= i < t.len() && (#[trigger] token_name(t[i])).len() > 0;
                    assert(token_name(t[i]) == token_name(tokens[i]));
                }
            }
            assert forall|f: u32| names_modifier(tokens, f) == names_modifier(t, f) by {
                if names_modifier(tokens, f) {
                    let i = choose|i: int| 0 <= i < tokens.len() && modifier_flag(#[trigger] token_name(tokens[i])) == Some(f);
                    if i < t.len() {
                        assert(token_name(t[i]) == token_name(tokens[i]));
                    }
                }
                if names_modifier(t, f) {
                    let i = choose|i: int| 0 <= i < t.len() && modifier_flag(#[trigger] token_name(t[i])) == Some(f);
                    assert(token_name(t[i]) == token_name(tokens[i]));
                }
            }
        } else {
            match modifier_flag(name) {
                None => {
                    assert(token_name(tokens[tokens.len() - 1]).len() > 0);
                },
                Some(g) => {
                    assert(!refuses_token(tokens)) by {
                        if refuses_token(tokens) {
                            let i = choose|i: int| 0 <= i < tokens.len() && (#[trigger] token_name(tokens[i])).len() > 0
                                && modifier_flag(token_name(tokens[i])) is None;
                            if i < t.len() {
                                assert(token_name(t[i]) == token_name(tokens[i]));
                            }
                        }
                    }
                    assert(has_named_token(tokens)) by {
                        assert(token_name(tokens[tokens.len() - 1]).len() > 0);
                    }
                    assert forall|f: u32| names_modifier(tokens, f) == (names_modifier(t, f) || g == f) by {
                        if names_modifier(tokens, f) {
                            let i = choose|i: int| 0 <= i < tokens.len() && modifier_flag(#[trigger] token_name(tokens[i])) == Some(f);
                            if i < t.len() {
                                assert(token_name(t[i]) == token_name(tokens[i]));
                            }
                        }
                        if names_modifier(t, f) {
                            let i = choose|i: int| 0 <= i < t.len() && modifier_flag(#[trigger] token_name(t[i])) == Some(f);
                            assert(token_name(t[i]) == token_name(tokens[i]));
                        }
                        if g == f {
                            assert(modifier_flag(token_name(tokens[tokens.len() - 1])) == Some(f));
                        }
                    }
                    assert(names_modifier(tokens, MOD_ALT) == (names_modifier(t, MOD_ALT) || g == MOD_ALT));
                    assert(names_modifier(tokens, MOD_CONTROL) == (names_modifier(t, MOD_CONTROL) || g == MOD_CONTROL));
                    assert(names_modifier(tokens, MOD_SHIFT) == (names_modifier(t, MOD_SHIFT) || g == MOD_SHIFT));
                    assert(names_modifier(tokens, MOD_WIN) == (names_modifier(t, MOD_WIN) || g == MOD_WIN));
                },
            }
        }
    }
}

proof fn lemma_scan_append_plain(p: Seq<char>, t: Seq<char>)
    requires
        has_no_separator(t),
    ensures
        scan_chars(p + t) == (scan_chars(p).0, scan_chars(p).1 + t),
    decreases t.len(),
{
    if t.len() == 0 {
        assert(p + t =~= p);
        assert(scan_chars(p).1 + t =~= scan_chars(p).1);
    } else {
        let t2 = t.drop_last();
        assert(has_no_separator(t2)) by {
            assert forall|i: int| 0 <= i < t2.len() implies !is_separator(#[trigger] t2[i]) by {
                assert(t2[i] == t[i]);
            }
        }
        lemma_scan_append_plain(p, t2);
        assert((p + t).drop_last() =~= p + t2);
        assert((p + t).last() == t[t.len() - 1]);
        assert(!is_separator(t[t.len() - 1]));
        assert((scan_chars(p).1 + t2).push(t.last()) =~= scan_chars(p).1 + t);
    }
}

proof fn lemma_scan_joined(tokens: Seq<Seq<char>>)
    requires
        tokens.len() >= 1,
        forall|i: int| 0 <= i < tokens.len() ==> has_no_separator(#[trigger] tokens[i]),
    ensures
        scan_chars(joined_with_plus(tokens)) == (fold_tokens(tokens.drop_last()), tokens.last()),
    decreases tokens.len(),
{
    let last = tokens.last();
    assert(has_no_separator(tokens[tokens.len() - 1]));
    if tokens.len() == 1 {
        lemma_scan_append_plain(Seq::<char>::empty(), last);
        assert(Seq::<char>::empty() + last =~= last);
        assert(tokens.drop_last() =~= Seq::<Seq<char>>::empty());
    } else {
        let t = tokens.drop_last();
        assert forall|i: int| 0 <= i < t.len() implies has_no_separator(#[trigger] t[i]) by {
            assert(t[i] == tokens[i]);
        }
        lemma_scan_joined(t);
        let j = joined_with_plus(t);
        let jp = j + seq!['+'];
        assert(jp.drop_last() =~= j);
        assert(jp.last() == '+');
        assert(scan_chars(jp) == (fold_tokens(t), Seq::<char>::empty()));
        lemma_scan_append_plain(jp, last);
        assert(Seq::<char>::empty() + last =~= last);
    }
}

/// A modifier list whose pieces are joined by `+` reads as the set of modifiers
/// that its pieces name: their order, repeats and letter case play no part. It is
/// refused where some piece, trimmed, is not empty and names no modifier, or where
/// every piece is empty.
pub proof fn law_modifiers_read_as_a_set(tokens: Seq<Seq<char>>)
    requires
        forall|i: int| 0 <= i < tokens.len() ==> has_no_separator(#[trigger] tokens[i]),
    ensures
        parsed_modifiers(joined_with_plus(tokens)) == (match token_set_scan(tokens) {
            None => None,
            Some(x) => if x.saw_token { Some(scan_flags(x)) } else { None },
        }),
{
    lemma_fold_tokens_set(tokens);
    if tokens.len() == 0 {
        assert(!refuses_token(tokens));
        assert(!has_named_token(tokens));
        assert(lower_all(trim(Seq::<char>::empty())).len() == 0);
    } else {
        lemma_scan_joined(tokens);
        assert(tokens.drop_last().push(tokens.last()) =~= tokens);
    }
}

/// The Win32 virtual-key codes of the named keys.
pub const VK_PRIOR: u32 = 0x21;
pub const VK_NEXT: u32 = 0x22;
pub const VK_END: u32 = 0x23;
pub const VK_HOME: u32 = 0x24;
pub const VK_LEFT: u32 = 0x25;
pub const VK_UP: u32 = 0x26;
pub const VK_RIGHT: u32 = 0x27;
pub const VK_DOWN: u32 = 0x28;
pub const VK_INSERT: u32 = 0x2D;
pub const VK_DELETE: u32 = 0x2E;
pub const VK_F1: u32 = 0x70;

/// Each named key, in any case and with any surrounding blanks, stands for its
/// Win32 virtual-key code: PageUp VK_PRIOR, PageDown VK_NEXT, End, Home, the four
/// arrows, Insert, Delete, and F1..F12 the twelve codes from VK_F1 on. A single
/// letter stands for its upper-case letter, a single digit for itself.
pub proof fn law_key_names_map_to_virtual_keys(key: Seq<char>)
    ensures
        token_name(key) == seq!['p', 'a', 'g', 'e', 'u', 'p'] ==> key_code(key) == Some(VK_PRIOR),
        token_name(key) == seq!['p', 'a', 'g', 'e', 'd', 'o', 'w', 'n'] ==> key_code(key) == Some(VK_NEXT),
        token_name(key) == seq!['e', 'n', 'd'] ==> key_code(key) == Some(VK_END),
        token_name(key) == seq!['h', 'o', 'm', 'e'] ==> key_code(key) == Some(VK_HOME),
        token_name(key) == seq!['l', 'e', 'f', 't'] ==> key_code(key) == Some(VK_LEFT),
        token_name(key) == seq!['u', 'p'] ==> key_code(key) == Some(VK_UP),
        token_name(key) == seq!['r', 'i', 'g', 'h', 't'] ==> key_code(key) == Some(VK_RIGHT),
        token_name(key) == seq!['d', 'o', 'w', 'n'] ==> key_code(key) == Some(VK_DOWN),
        token_name(key) == seq!['i', 'n', 's', 'e', 'r', 't'] ==> key_code(key) == Some(VK_INSERT),
        token_name(key) == seq!['d', 'e', 'l', 'e', 't', 'e'] ==> key_code(key) == Some(VK_DELETE),
        token_name(key) == seq!['f', '1'] ==> key_code(key) == Some((VK_F1 + 0) as u32),
        token_name(key) == seq!['f', '2'] ==> key_code(key) == Some((VK_F1 + 1) as u32),
        token_name(key) == seq!['f', '3'] ==> key_code(key) == Some((VK_F1 + 2) as u32),
        token_name(key) == seq!['f', '4'] ==> key_code(key) == Some((VK_F1 + 3) as u32),
        token_name(key) == seq!['f', '5'] ==> key_code(key) == Some((VK_F1 + 4) as u32),
        token_name(key) == seq!['f', '6'] ==> key_code(key) == Some((VK_F1 + 5) as u32),
        token_name(key) == seq!['f', '7'] ==> key_code(key) == Some((VK_F1 + 6) as u32),
        token_name(key) == seq!['f', '8'] ==> key_code(key) == Some((VK_F1 + 7) as u32),
        token_name(key) == seq!['f', '9'] ==> key_code(key) == Some((VK_F1 + 8) as u32),
        token_name(key) == seq!['f', '1', '0'] ==> key_code(key) == Some((VK_F1 + 9) as u32),
        token_name(key) == seq!['f', '1', '1'] ==> key_code(key) == Some((VK_F1 + 10) as u32),
        token_name(key) == seq!['f', '1', '2'] ==> key_code(key) == Some((VK_F1 + 11) as u32),
        trim(key).len() == 1 && 'a' <= trim(key)[0] <= 'z' ==> key_code(key) == Some(((trim(key)[0] as int) - 32) as u32),
        trim(key).len() == 1 && ('A' <= trim(key)[0] <= 'Z' || '0' <= trim(key)[0] <= '9') ==> key_code(key) == Some(trim(key)[0] as u32),
{
    let t = trim(key);
    assert(token_name(key).len() == t.len());
    if t.len() == 1 {
        assert(lower_all(t)[0] == ascii_lower(t[0]));
    }
}

} // verus!
