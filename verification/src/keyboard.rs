//! The commands the user can give from the keyboard or the mouse, the key combinations
//! that name them ("Ctrl+W", "Shift+Q", "MouseLeft"), and the lookup of a terminal event
//! in the key map.

use vstd::prelude::*;
use vstd::string::StrSliceExecFns;
use vstd::utf8::{encode_scalar, encode_utf8};
use crate::text::{str_eq, find_char, first_index_of, parse_u16, parse_u16_spec};

verus! {

#[derive(Copy, Clone, Debug, PartialEq, Eq, Structural)]
pub enum UserCommand {
    Idle,
    BackwardSearchPrompt,
    FilterPrompt,
    ForwardSearchPrompt,
    HalfPageDown,
    HalfPageUp,
    GotoBookmark,
    SetBookmarkTop,
    SetBookmarkBottom,
    GotoOffset,
    GotoPercent,
    SeekStartLine,
    SeekEndLine,
    CollectDigits(u8),
    CollectDecimal,
    MouseScrollDown,
    MouseScrollUp,
    PageDown,
    PageDownSticky,
    PageUp,
    PageUpSticky,
    Quit,
    RefreshDisplay,
    ScrollDown,
    ScrollToBottom,
    ScrollToTop,
    ScrollUp,
    PanLeft,
    PanRight,
    PanLeftMax,
    PanRightMax,
    SearchNext,
    SearchPrev,
    SelectWordAt(u16, u16),
    SelectWordDrag(u16, u16),
    TerminalResize,
}


/// A key of the keyboard.
#[derive(Copy, Clone, Debug, PartialEq, Eq, Structural)]
pub enum KeyCode {
    Backspace,
    Enter,
    Left,
    Right,
    Up,
    Down,
    Home,
    End,
    PageUp,
    PageDown,
    Tab,
    BackTab,
    Delete,
    Insert,
    F(u8),
    Char(char),
    Null,
    Esc,
    /// A key that no key combination can name (caps lock, media keys, ...).
    Unnamed,
}

#[derive(Copy, Clone, Debug, PartialEq, Eq, Structural)]
pub enum MouseButton {
    Left,
    Right,
    Middle,
}

/// What the mouse did.
#[derive(Copy, Clone, Debug, PartialEq, Eq, Structural)]
pub enum MouseAction {
    Down(MouseButton),
    Up(MouseButton),
    Drag(MouseButton),
    Moved,
    ScrollDown,
    ScrollUp,
}

/// Modifier bits, as the terminal library numbers them.
pub const SHIFT: u8 = 1;
pub const CONTROL: u8 = 2;
pub const ALT: u8 = 4;

/// A key or mouse action together with the modifiers held with it.
#[derive(Copy, Clone, Debug, PartialEq, Eq, Structural)]
pub enum KeyCombo {
    Key { code: KeyCode, mods: u8 },
    Mouse { kind: MouseAction, mods: u8 },
}

/// Why a key combination could not be read.
#[derive(Copy, Clone, Debug, PartialEq, Eq, Structural)]
pub enum ComboErrorKind {
    /// A modifier is given twice; the error's key names it.
    Repeated,
    TwoActionKeys,
    ActionAndMouse,
    TwoMouseActions,
    /// The error's key is not the name of a modifier, key or mouse action.
    UnknownKey,
    NoAction,
}

/// An error in a key combination, with the (lowercased) part of it that is at fault, or an
/// empty key where no single part is.
pub struct KeyComboError {
    pub kind: ComboErrorKind,
    pub key: String,
}

/// A key combination read so far.
#[derive(Copy, Clone, Debug, PartialEq, Eq, Structural)]
pub struct ComboState {
    pub mods: u8,
    pub action: Option<KeyCode>,
    pub mouse: Option<MouseAction>,
}

/// An error as a kind and a key.
pub type ErrView = (ComboErrorKind, Seq<char>);

pub open spec fn err_view(e: KeyComboError) -> ErrView {
    (e.kind, e.key@)
}

pub open spec fn result_view(r: Result<KeyCombo, KeyComboError>) -> Result<KeyCombo, ErrView> {
    match r {
        Ok(c) => Ok(c),
        Err(e) => Err(err_view(e)),
    }
}

/// The modifier bit a name gives, or 0.
pub open spec fn modifier_of(k: Seq<char>) -> u8 {
    if k == "shift"@ {
        SHIFT
    } else if k == "alt"@ {
        ALT
    } else if k == "ctrl"@ {
        CONTROL
    } else {
        0
    }
}

/// The key a (lowercase) key name stands for.
pub open spec fn named_key(k: Seq<char>) -> Option<KeyCode> {
    if k == "backspace"@ {
        Some(KeyCode::Backspace)
    } else if k == "enter"@ {
        Some(KeyCode::Enter)
    } else if k == "left"@ {
        Some(KeyCode::Left)
    } else if k == "right"@ {
        Some(KeyCode::Right)
    } else if k == "up"@ {
        Some(KeyCode::Up)
    } else if k == "down"@ {
        Some(KeyCode::Down)
    } else if k == "home"@ {
        Some(KeyCode::Home)
    } else if k == "end"@ {
        Some(KeyCode::End)
    } else if k == "pageup"@ {
        Some(KeyCode::PageUp)
    } else if k == "pagedown"@ {
        Some(KeyCode::PageDown)
    } else if k == "tab"@ {
        Some(KeyCode::Tab)
    } else if k == "backtab"@ {
        Some(KeyCode::BackTab)
    } else if k == "delete"@ {
        Some(KeyCode::Delete)
    } else if k == "insert"@ {
        Some(KeyCode::Insert)
    } else if k == "null"@ {
        Some(KeyCode::Null)
    } else if k == "esc"@ {
        Some(KeyCode::Esc)
    } else {
        None
    }
}

/// What parsing `s` as a `u8` gives.
pub open spec fn parse_u8_spec(s: Seq<char>) -> Option<u8> {
    match parse_u16_spec(s) {
        Some(v) => if v <= 255 { Some(v as u8) } else { None },
        None => None,
    }
}

/// The action key a part names: a key name, one single-byte character, or `F` and a
/// number. The outer `None` is a part the reading cannot go past (an `F` and no number).
pub open spec fn action_of(k: Seq<char>) -> Option<Option<KeyCode>> {
    let bytes = encode_utf8(k).len();
    if named_key(k) is Some {
        Some(named_key(k))
    } else if bytes == 1 {
        Some(Some(KeyCode::Char(k[0])))
    } else if bytes > 1 && k[0] == 'F' && bytes < 4 {
        match parse_u8_spec(k.skip(1)) {
            Some(n) => Some(Some(KeyCode::F(n))),
            None => None,
        }
    } else {
        Some(None)
    }
}

/// The mouse action a (lowercase) name stands for.
pub open spec fn mouse_of(k: Seq<char>) -> Option<MouseAction> {
    if k == "mouseleft"@ {
        Some(MouseAction::Down(MouseButton::Left))
    } else if k == "mouseleftup"@ {
        Some(MouseAction::Up(MouseButton::Left))
    } else if k == "mouseleftdrag"@ {
        Some(MouseAction::Drag(MouseButton::Left))
    } else if k == "mouseright"@ {
        Some(MouseAction::Down(MouseButton::Right))
    } else if k == "mouserightup"@ {
        Some(MouseAction::Up(MouseButton::Right))
    } else if k == "mouserightdrag"@ {
        Some(MouseAction::Drag(MouseButton::Right))
    } else if k == "mousemiddle"@ {
        Some(MouseAction::Down(MouseButton::Middle))
    } else if k == "mousemiddleup"@ {
        Some(MouseAction::Up(MouseButton::Middle))
    } else if k == "mousemiddledrag"@ {
        Some(MouseAction::Drag(MouseButton::Middle))
    } else if k == "mousewheelup"@ {
        Some(MouseAction::ScrollUp)
    } else if k == "mousewheeldown"@ {
        Some(MouseAction::ScrollDown)
    } else {
        None
    }
}

/// Take one part of a key combination into the state.
pub open spec fn step_with(st: ComboState, k: Seq<char>, a: Option<KeyCode>) -> Result<ComboState, ErrView> {
    let m = modifier_of(k);
    let ma = mouse_of(k);
    if m != 0 {
        if st.mods & m != 0 {
            Err((ComboErrorKind::Repeated, k))
        } else {
            Ok(ComboState { mods: st.mods | m, ..st })
        }
    } else if a is Some {
        if st.action is Some {
            Err((ComboErrorKind::TwoActionKeys, Seq::empty()))
        } else if ma is Some {
            Err((ComboErrorKind::ActionAndMouse, Seq::empty()))
        } else {
            Ok(ComboState { action: a, ..st })
        }
    } else if ma is Some {
        if st.mouse is Some {
            Err((ComboErrorKind::TwoMouseActions, Seq::empty()))
        } else {
            Ok(ComboState { mouse: ma, ..st })
        }
    } else {
        Err((ComboErrorKind::UnknownKey, k))
    }
}

pub open spec fn step(st: ComboState, k: Seq<char>) -> Option<Result<ComboState, ErrView>> {
    match action_of(k) {
        Some(a) => Some(step_with(st, k, a)),
        None => None,
    }
}

/// Read the parts of `s`, split at each `+`, into the state.
pub open spec fn scan(st: ComboState, s: Seq<char>) -> Option<Result<ComboState, ErrView>>
    decreases s.len(),
{
    match first_index_of(s, '+') {
        Some(i) => if 0 <= i < s.len() {
            match step(st, s.take(i)) {
                Some(Ok(next)) => scan(next, s.skip(i + 1)),
                other => other,
            }
        } else {
            None
        },
        None => step(st, s),
    }
}

pub open spec fn no_combo() -> ComboState {
    ComboState { mods: 0, action: None, mouse: None }
}

/// The key combination `s` (already lowercase) names. `None` where there is no answer:
/// both an action key and a mouse action, neither of them, or an `F` and no number.
#[verifier::opaque]
pub open spec fn combo_spec(s: Seq<char>) -> Option<Result<KeyCombo, ErrView>> {
    match scan(no_combo(), s) {
        Some(Ok(st)) => match (st.action, st.mouse) {
            (Some(code), None) => Some(Ok(KeyCombo::Key { code, mods: st.mods })),
            (None, Some(kind)) => Some(Ok(KeyCombo::Mouse { kind, mods: st.mods })),
            _ => None,
        },
        Some(Err(e)) => Some(Err(e)),
        None => None,
    }
}

/// `str::to_lowercase` gives this lowercase form of a text; it depends on the text alone.
pub uninterp spec fn lowercase_of(s: Seq<char>) -> Seq<char>;

pub open spec fn is_ascii_text(s: Seq<char>) -> bool {
    forall|i: int| 0 <= i < s.len() ==> (#[trigger] s[i] as u32) < 128
}

/// The lowercase form of an ASCII character.
pub open spec fn ascii_lower(c: char) -> char {
    if 'A' <= c <= 'Z' {
        ((c as u32) + 32) as char
    } else {
        c
    }
}

/// Lowercase `s` with `str::to_lowercase`. Its result is named; of an ASCII text it is the
/// text with `A`..`Z` lowered and the rest kept, as the Unicode case mapping has it.
#[verifier::external_body]
fn to_lowercase(s: &str) -> (r: String)
    ensures
        r@ == lowercase_of(s@),
        is_ascii_text(s@) ==> r@ == s@.map_values(|c: char| ascii_lower(c)),
{
    s.to_lowercase()
}

fn modifier_bit(k: &str) -> (r: u8)
    ensures
        r == modifier_of(k@),
{
    if str_eq(k, "shift") {
        SHIFT
    } else if str_eq(k, "alt") {
        ALT
    } else if str_eq(k, "ctrl") {
        CONTROL
    } else {
        0
    }
}

fn key_named(k: &str) -> (r: Option<KeyCode>)
    ensures
        r == named_key(k@),
{
    if str_eq(k, "backspace") {
        Some(KeyCode::Backspace)
    } else if str_eq(k, "enter") {
        Some(KeyCode::Enter)
    } else if str_eq(k, "left") {
        Some(KeyCode::Left)
    } else if str_eq(k, "right") {
        Some(KeyCode::Right)
    } else if str_eq(k, "up") {
        Some(KeyCode::Up)
    } else if str_eq(k, "down") {
        Some(KeyCode::Down)
    } else if str_eq(k, "home") {
        Some(KeyCode::Home)
    } else if str_eq(k, "end") {
        Some(KeyCode::End)
    } else if str_eq(k, "pageup") {
        Some(KeyCode::PageUp)
    } else if str_eq(k, "pagedown") {
        Some(KeyCode::PageDown)
    } else if str_eq(k, "tab") {
        Some(KeyCode::Tab)
    } else if str_eq(k, "backtab") {
        Some(KeyCode::BackTab)
    } else if str_eq(k, "delete") {
        Some(KeyCode::Delete)
    } else if str_eq(k, "insert") {
        Some(KeyCode::Insert)
    } else if str_eq(k, "null") {
        Some(KeyCode::Null)
    } else if str_eq(k, "esc") {
        Some(KeyCode::Esc)
    } else {
        None
    }
}

fn key_action(k: &str) -> (r: Option<Option<KeyCode>>)
    ensures
        r == action_of(k@),
{
    let named = key_named(k);
    if named.is_some() {
        return Some(named);
    }
    let bytes = k.as_bytes().len();
    proof {
        if k@.len() == 0 {
            assert(encode_utf8(k@) =~= Seq::<u8>::empty());
        }
    }
    if bytes == 1 {
        return Some(Some(KeyCode::Char(k.get_char(0))));
    }
    if bytes > 1 && bytes < 4 && k.get_char(0) == 'F' {
        let n = k.unicode_len();
        let rest = k.substring_char(1, n);
        proof {
            assert(rest@ =~= k@.skip(1));
        }
        match parse_u16(rest) {
            Some(v) => if v <= 255 {
                Some(Some(KeyCode::F(v as u8)))
            } else {
                None
            },
            None => None,
        }
    } else {
        Some(None)
    }
}

fn mouse_named(k: &str) -> (r: Option<MouseAction>)
    ensures
        r == mouse_of(k@),
{
    if str_eq(k, "mouseleft") {
        Some(MouseAction::Down(MouseButton::Left))
    } else if str_eq(k, "mouseleftup") {
        Some(MouseAction::Up(MouseButton::Left))
    } else if str_eq(k, "mouseleftdrag") {
        Some(MouseAction::Drag(MouseButton::Left))
    } else if str_eq(k, "mouseright") {
        Some(MouseAction::Down(MouseButton::Right))
    } else if str_eq(k, "mouserightup") {
        Some(MouseAction::Up(MouseButton::Right))
    } else if str_eq(k, "mouserightdrag") {
        Some(MouseAction::Drag(MouseButton::Right))
    } else if str_eq(k, "mousemiddle") {
        Some(MouseAction::Down(MouseButton::Middle))
    } else if str_eq(k, "mousemiddleup") {
        Some(MouseAction::Up(MouseButton::Middle))
    } else if str_eq(k, "mousemiddledrag") {
        Some(MouseAction::Drag(MouseButton::Middle))
    } else if str_eq(k, "mousewheelup") {
        Some(MouseAction::ScrollUp)
    } else if str_eq(k, "mousewheeldown") {
        Some(MouseAction::ScrollDown)
    } else {
        None
    }
}

pub open spec fn step_view(r: Option<Result<ComboState, KeyComboError>>) -> Option<Result<ComboState, ErrView>> {
    match r {
        Some(Ok(st)) => Some(Ok(st)),
        Some(Err(e)) => Some(Err(err_view(e))),
        None => None,
    }
}

pub open spec fn combo_view(r: Option<Result<KeyCombo, KeyComboError>>) -> Option<Result<KeyCombo, ErrView>> {
    match r {
        Some(x) => Some(result_view(x)),
        None => None,
    }
}

fn combo_error(kind: ComboErrorKind) -> (r: KeyComboError)
    ensures
        err_view(r) == (kind, Seq::<char>::empty()),
{
    KeyComboError { kind, key: String::new() }
}

/// Take the part `k` of a key combination into `st`.
fn step_exec(st: ComboState, k: &str) -> (r: Option<Result<ComboState, KeyComboError>>)
    ensures
        step_view(r) == step(st, k@),
{
    let m = modifier_bit(k);
    let a = match key_action(k) {
        Some(a) => a,
        None => return None,
    };
    let ma = mouse_named(k);
    if m != 0 {
        if st.mods & m != 0 {
            Some(Err(KeyComboError { kind: ComboErrorKind::Repeated, key: k.to_owned() }))
        } else {
            Some(Ok(ComboState { mods: st.mods | m, ..st }))
        }
    } else if a.is_some() {
        if st.action.is_some() {
            Some(Err(combo_error(ComboErrorKind::TwoActionKeys)))
        } else if ma.is_some() {
            Some(Err(combo_error(ComboErrorKind::ActionAndMouse)))
        } else {
            Some(Ok(ComboState { action: a, ..st }))
        }
    } else if ma.is_some() {
        if st.mouse.is_some() {
            Some(Err(combo_error(ComboErrorKind::TwoMouseActions)))
        } else {
            Some(Ok(ComboState { mouse: ma, ..st }))
        }
    } else {
        Some(Err(KeyComboError { kind: ComboErrorKind::UnknownKey, key: k.to_owned() }))
    }
}

proof fn lemma_first_index(s: Seq<char>, c: char, i: int)
    requires
        0 <= i < s.len(),
        s[i] == c,
        forall|j: int| 0 <= j < i ==> s[j] != c,
    ensures
        first_index_of(s, c) == Some(i),
{
    assert(0 <= i < s.len() && s[i] == c && forall|j: int| 0 <= j < i ==> s[j] != c);
    let x = choose|x: int| 0 <= x < s.len() && s[x] == c && forall|j: int| 0 <= j < x ==> s[j] != c;
    if x < i {
        assert(s[x] != c);
    } else if x > i {
        assert(s[i] != c);
    }
}

/// The combination `s` (already lowercase) names, or `None` where `combo_spec` has no answer.
pub fn scan_combo(s: &str) -> (r: Option<Result<KeyCombo, KeyComboError>>)
    ensures
        combo_view(r) == combo_spec(s@),
{
    let mut st = ComboState { mods: 0, action: None, mouse: None };
    let mut rest: &str = s;
    loop
        invariant
            scan(no_combo(), s@) == scan(st, rest@),
        decreases rest@.len(),
    {
        proof {
            reveal(combo_spec);
        }
        match find_char(rest, '+') {
            Some(i) => {
                proof {
                    lemma_first_index(rest@, '+', i as int);
                }
                let n = rest.unicode_len();
                let k = rest.substring_char(0, i);
                let after = rest.substring_char(i + 1, n);
                proof {
                    assert(k@ =~= rest@.take(i as int));
                    assert(after@ =~= rest@.skip(i + 1));
                }
                match step_exec(st, k) {
                    Some(Ok(next)) => {
                        st = next;
                        rest = after;
                    },
                    Some(Err(e)) => return Some(Err(e)),
                    None => return None,
                }
            },
            None => {
                match step_exec(st, rest) {
                    Some(Ok(last)) => return match (last.action, last.mouse) {
                        (Some(code), None) => Some(Ok(KeyCombo::Key { code, mods: last.mods })),
                        (None, Some(kind)) => Some(Ok(KeyCombo::Mouse { kind, mods: last.mods })),
                        _ => None,
                    },
                    Some(Err(e)) => return Some(Err(e)),
                    None => return None,
                }
            },
        }
    }
}

/// A part taken into the state only ever adds to it: modifiers stay, a chosen key or mouse
/// action stays, and something new is set: a modifier, or the key or mouse action where
/// there was none.
pub proof fn lemma_step_grows(st: ComboState, k: Seq<char>)
    ensures
        step(st, k) matches Some(Ok(st1)) ==> {
            &&& st.mods != 0 ==> st1.mods != 0
            &&& st.action is Some ==> st1.action == st.action
            &&& st.mouse is Some ==> st1.mouse == st.mouse
            &&& st1.mods != 0 || (st.action is None && st1.action is Some) || (st.mouse is None && st1.mouse is Some)
        },
{
    let m = modifier_of(k);
    let x = st.mods;
    assert(m != 0 ==> (x | m) != 0u8) by (bit_vector);
    assert(x != 0 ==> (x | m) != 0u8) by (bit_vector);
}

/// Reading a key combination from a state only adds to it, and a combination read whole
/// sets something: a modifier, or the key or mouse action where there was none.
pub proof fn lemma_scan_grows(st: ComboState, s: Seq<char>)
    ensures
        scan(st, s) matches Some(Ok(st2)) ==> {
            &&& st.mods != 0 ==> st2.mods != 0
            &&& st.action is Some ==> st2.action == st.action
            &&& st.mouse is Some ==> st2.mouse == st.mouse
            &&& st2.mods != 0 || (st.action is None && st2.action is Some) || (st.mouse is None && st2.mouse is Some)
        },
    decreases s.len(),
{
    match first_index_of(s, '+') {
        Some(i) => {
            if 0 <= i < s.len() {
                lemma_step_grows(st, s.take(i));
                if let Some(Ok(next)) = step(st, s.take(i)) {
                    lemma_scan_grows(next, s.skip(i + 1));
                }
            }
        },
        None => {
            lemma_step_grows(st, s);
        },
    }
}

/// A combination that names a key with no modifier is one part, that key alone.
pub proof fn lemma_plain_key(s: Seq<char>, c: KeyCode)
    requires
        combo_spec(s) == Some(Ok::<KeyCombo, ErrView>(KeyCombo::Key { code: c, mods: 0 })),
    ensures
        action_of(s) == Some(Some(c)),
{
    reveal(combo_spec);
    let st0 = no_combo();
    match first_index_of(s, '+') {
        Some(i) => {
            if 0 <= i < s.len() {
                lemma_step_grows(st0, s.take(i));
                if let Some(Ok(next)) = step(st0, s.take(i)) {
                    lemma_scan_grows(next, s.skip(i + 1));
                }
            }
            assert(false);
        },
        None => {},
    }
}

/// The key names stand for their keys, with no modifier.
pub proof fn lemma_named_words()
    ensures
        combo_spec("up"@) == Some(Ok::<KeyCombo, ErrView>(KeyCombo::Key { code: KeyCode::Up, mods: 0 })),
        combo_spec("down"@) == Some(Ok::<KeyCombo, ErrView>(KeyCombo::Key { code: KeyCode::Down, mods: 0 })),
        combo_spec("left"@) == Some(Ok::<KeyCombo, ErrView>(KeyCombo::Key { code: KeyCode::Left, mods: 0 })),
        combo_spec("right"@) == Some(Ok::<KeyCombo, ErrView>(KeyCombo::Key { code: KeyCode::Right, mods: 0 })),
        combo_spec("pageup"@) == Some(Ok::<KeyCombo, ErrView>(KeyCombo::Key { code: KeyCode::PageUp, mods: 0 })),
        combo_spec("pagedown"@) == Some(Ok::<KeyCombo, ErrView>(KeyCombo::Key { code: KeyCode::PageDown, mods: 0 })),
        combo_spec("home"@) == Some(Ok::<KeyCombo, ErrView>(KeyCombo::Key { code: KeyCode::Home, mods: 0 })),
        combo_spec("end"@) == Some(Ok::<KeyCombo, ErrView>(KeyCombo::Key { code: KeyCode::End, mods: 0 })),
        combo_spec("esc"@) == Some(Ok::<KeyCombo, ErrView>(KeyCombo::Key { code: KeyCode::Esc, mods: 0 })),
        combo_spec("enter"@) == Some(Ok::<KeyCombo, ErrView>(KeyCombo::Key { code: KeyCode::Enter, mods: 0 })),
{
    reveal(combo_spec);
    reveal_strlit("backspace");
    reveal_strlit("enter");
    reveal_strlit("left");
    reveal_strlit("right");
    reveal_strlit("up");
    reveal_strlit("down");
    reveal_strlit("home");
    reveal_strlit("end");
    reveal_strlit("pageup");
    reveal_strlit("pagedown");
    reveal_strlit("tab");
    reveal_strlit("backtab");
    reveal_strlit("delete");
    reveal_strlit("insert");
    reveal_strlit("null");
    reveal_strlit("esc");
    reveal_strlit("shift");
    reveal_strlit("alt");
    reveal_strlit("ctrl");
    reveal_strlit("mouseleft");
    reveal_strlit("mouseleftup");
    reveal_strlit("mouseleftdrag");
    reveal_strlit("mouseright");
    reveal_strlit("mouserightup");
    reveal_strlit("mouserightdrag");
    reveal_strlit("mousemiddle");
    reveal_strlit("mousemiddleup");
    reveal_strlit("mousemiddledrag");
    reveal_strlit("mousewheelup");
    reveal_strlit("mousewheeldown");
    assert(first_index_of("up"@, '+') is None);
    assert("down"@[0] != "left"@[0]);
    assert("down"@[0] != "ctrl"@[0]);
    assert(first_index_of("down"@, '+') is None);
    assert("left"@[0] != "ctrl"@[0]);
    assert(first_index_of("left"@, '+') is None);
    assert("right"@[0] != "enter"@[0]);
    assert("right"@[0] != "shift"@[0]);
    assert(first_index_of("right"@, '+') is None);
    assert(first_index_of("pageup"@, '+') is None);
    assert(first_index_of("pagedown"@, '+') is None);
    assert("home"@[0] != "left"@[0]);
    assert("home"@[0] != "down"@[0]);
    assert("home"@[0] != "ctrl"@[0]);
    assert(first_index_of("home"@, '+') is None);
    assert("end"@[0] != "alt"@[0]);
    assert(first_index_of("end"@, '+') is None);
    assert("esc"@[1] != "end"@[1]);
    assert("esc"@[0] != "tab"@[0]);
    assert("esc"@[0] != "alt"@[0]);
    assert(first_index_of("esc"@, '+') is None);
    assert("enter"@[0] != "shift"@[0]);
    assert(first_index_of("enter"@, '+') is None);
}

/// The one (lowercase) name that stands for mouse action `k`.
pub open spec fn mouse_word(k: MouseAction) -> Seq<char> {
    match k {
        MouseAction::Down(MouseButton::Left) => "mouseleft"@,
        MouseAction::Up(MouseButton::Left) => "mouseleftup"@,
        MouseAction::Drag(MouseButton::Left) => "mouseleftdrag"@,
        MouseAction::Down(MouseButton::Right) => "mouseright"@,
        MouseAction::Up(MouseButton::Right) => "mouserightup"@,
        MouseAction::Drag(MouseButton::Right) => "mouserightdrag"@,
        MouseAction::Down(MouseButton::Middle) => "mousemiddle"@,
        MouseAction::Up(MouseButton::Middle) => "mousemiddleup"@,
        MouseAction::Drag(MouseButton::Middle) => "mousemiddledrag"@,
        MouseAction::ScrollUp => "mousewheelup"@,
        MouseAction::ScrollDown => "mousewheeldown"@,
        _ => Seq::empty(),
    }
}

/// A combination that names a mouse action with no modifier is one part, that action alone.
pub proof fn lemma_plain_mouse(s: Seq<char>, k: MouseAction)
    requires
        combo_spec(s) == Some(Ok::<KeyCombo, ErrView>(KeyCombo::Mouse { kind: k, mods: 0 })),
    ensures
        mouse_of(s) == Some(k),
{
    reveal(combo_spec);
    let st0 = no_combo();
    match first_index_of(s, '+') {
        Some(i) => {
            if 0 <= i < s.len() {
                lemma_step_grows(st0, s.take(i));
                if let Some(Ok(next)) = step(st0, s.take(i)) {
                    lemma_scan_grows(next, s.skip(i + 1));
                }
            }
            assert(false);
        },
        None => {},
    }
}

/// Only the name of a mouse action stands for it.
pub proof fn lemma_mouse_word(s: Seq<char>, k: MouseAction)
    requires
        mouse_of(s) == Some(k),
    ensures
        s == mouse_word(k),
{
}

/// The mouse names of the key table stand for their actions, with no modifier.
pub proof fn lemma_mouse_words()
    ensures
        combo_spec("mouseleft"@) == Some(Ok::<KeyCombo, ErrView>(KeyCombo::Mouse { kind: MouseAction::Down(MouseButton::Left), mods: 0 })),
        combo_spec("mouseleftdrag"@) == Some(Ok::<KeyCombo, ErrView>(KeyCombo::Mouse { kind: MouseAction::Drag(MouseButton::Left), mods: 0 })),
        combo_spec("mousewheelup"@) == Some(Ok::<KeyCombo, ErrView>(KeyCombo::Mouse { kind: MouseAction::ScrollUp, mods: 0 })),
        combo_spec("mousewheeldown"@) == Some(Ok::<KeyCombo, ErrView>(KeyCombo::Mouse { kind: MouseAction::ScrollDown, mods: 0 })),
{
    reveal(combo_spec);
    reveal_strlit("backspace");
    reveal_strlit("enter");
    reveal_strlit("left");
    reveal_strlit("right");
    reveal_strlit("up");
    reveal_strlit("down");
    reveal_strlit("home");
    reveal_strlit("end");
    reveal_strlit("pageup");
    reveal_strlit("pagedown");
    reveal_strlit("tab");
    reveal_strlit("backtab");
    reveal_strlit("delete");
    reveal_strlit("insert");
    reveal_strlit("null");
    reveal_strlit("esc");
    reveal_strlit("shift");
    reveal_strlit("alt");
    reveal_strlit("ctrl");
    reveal_strlit("mouseleft");
    reveal_strlit("mouseleftup");
    reveal_strlit("mouseleftdrag");
    reveal_strlit("mouseright");
    reveal_strlit("mouserightup");
    reveal_strlit("mouserightdrag");
    reveal_strlit("mousemiddle");
    reveal_strlit("mousemiddleup");
    reveal_strlit("mousemiddledrag");
    reveal_strlit("mousewheelup");
    reveal_strlit("mousewheeldown");
    assert("mouseleft"@[0] != "backspace"@[0]);
    assert(first_index_of("mouseleft"@, '+') is None);
    lemma_encode_len("mouseleft"@);
    assert("mouseleft"@[0] != 'F');
    assert(first_index_of("mouseleftdrag"@, '+') is None);
    lemma_encode_len("mouseleftdrag"@);
    assert("mouseleftdrag"@[0] != 'F');
    assert("mousewheelup"@[5] != "mouserightup"@[5]);
    assert(first_index_of("mousewheelup"@, '+') is None);
    lemma_encode_len("mousewheelup"@);
    assert("mousewheelup"@[0] != 'F');
    assert("mousewheeldown"@[5] != "mouserightdrag"@[5]);
    assert(first_index_of("mousewheeldown"@, '+') is None);
    lemma_encode_len("mousewheeldown"@);
    assert("mousewheeldown"@[0] != 'F');
}

/// The one (lowercase) name that stands for key `c` alone: its key name, or the character
/// itself.
pub open spec fn key_word(c: KeyCode) -> Seq<char> {
    match c {
        KeyCode::Backspace => "backspace"@,
        KeyCode::Enter => "enter"@,
        KeyCode::Left => "left"@,
        KeyCode::Right => "right"@,
        KeyCode::Up => "up"@,
        KeyCode::Down => "down"@,
        KeyCode::Home => "home"@,
        KeyCode::End => "end"@,
        KeyCode::PageUp => "pageup"@,
        KeyCode::PageDown => "pagedown"@,
        KeyCode::Tab => "tab"@,
        KeyCode::BackTab => "backtab"@,
        KeyCode::Delete => "delete"@,
        KeyCode::Insert => "insert"@,
        KeyCode::Null => "null"@,
        KeyCode::Esc => "esc"@,
        KeyCode::Char(ch) => seq![ch],
        _ => Seq::empty(),
    }
}

/// Each character takes at least one byte.
pub proof fn lemma_encode_len(s: Seq<char>)
    ensures
        encode_utf8(s).len() >= s.len(),
    decreases s.len(),
{
    if s.len() > 0 {
        lemma_encode_len(s.drop_first());
    }
}

/// A part that reads as key `c` (not a function key) is that key's word.
pub proof fn lemma_key_word(s: Seq<char>, c: KeyCode)
    requires
        action_of(s) == Some(Some(c)),
        !(c is F),
    ensures
        s == key_word(c),
{
    if named_key(s) is None {
        lemma_encode_len(s);
        assert(s =~= seq![s[0]]);
    }
}

/// A single ASCII character other than `+` names the key of that character, with no
/// modifier.
pub proof fn lemma_char_combo(ch: char)
    requires
        (ch as u32) < 128,
        ch != '+',
    ensures
        combo_spec(seq![ch]) == Some(Ok::<KeyCombo, ErrView>(KeyCombo::Key { code: KeyCode::Char(ch), mods: 0 })),
{
    reveal(combo_spec);
    lemma_word_lengths();
    let s = seq![ch];
    assert(s.drop_first() =~= Seq::<char>::empty());
    assert(s[0] == ch);
    assert(encode_utf8(Seq::<char>::empty()).len() == 0);
    assert(encode_scalar(ch as u32).len() == 1);
    assert(encode_utf8(s) == encode_scalar(ch as u32) + encode_utf8(s.drop_first()));
    assert(encode_utf8(s).len() == 1);
    assert(first_index_of(s, '+') is None);
    assert(named_key(s) is None);
    assert(action_of(s) == Some(Some(KeyCode::Char(ch))));
    assert(modifier_of(s) == 0);
    assert(mouse_of(s) is None);
    assert(step(no_combo(), s) == Some(Ok::<ComboState, ErrView>(ComboState { mods: 0, action: Some(KeyCode::Char(ch)), mouse: None })));
    assert(scan(no_combo(), s) == step(no_combo(), s));
}

/// The lengths of the key and mouse names the combinations know.
pub proof fn lemma_word_lengths()
    ensures
        "up"@.len() == 2,
        "down"@.len() == 4,
        "backspace"@.len() == 9,
        "enter"@.len() == 5,
        "left"@.len() == 4,
        "right"@.len() == 5,
        "home"@.len() == 4,
        "end"@.len() == 3,
        "pageup"@.len() == 6,
        "pagedown"@.len() == 8,
        "tab"@.len() == 3,
        "backtab"@.len() == 7,
        "delete"@.len() == 6,
        "insert"@.len() == 6,
        "null"@.len() == 4,
        "esc"@.len() == 3,
        "shift"@.len() == 5,
        "alt"@.len() == 3,
        "ctrl"@.len() == 4,
        "mouseleft"@.len() == 9,
        "mouseleftup"@.len() == 11,
        "mouseleftdrag"@.len() == 13,
        "mouseright"@.len() == 10,
        "mouserightup"@.len() == 12,
        "mouserightdrag"@.len() == 14,
        "mousemiddle"@.len() == 11,
        "mousemiddleup"@.len() == 13,
        "mousemiddledrag"@.len() == 15,
        "mousewheelup"@.len() == 12,
        "mousewheeldown"@.len() == 14,
{
    reveal_strlit("up");
    reveal_strlit("down");
    reveal_strlit("backspace");
    reveal_strlit("enter");
    reveal_strlit("left");
    reveal_strlit("right");
    reveal_strlit("home");
    reveal_strlit("end");
    reveal_strlit("pageup");
    reveal_strlit("pagedown");
    reveal_strlit("tab");
    reveal_strlit("backtab");
    reveal_strlit("delete");
    reveal_strlit("insert");
    reveal_strlit("null");
    reveal_strlit("esc");
    reveal_strlit("shift");
    reveal_strlit("alt");
    reveal_strlit("ctrl");
    reveal_strlit("mouseleft");
    reveal_strlit("mouseleftup");
    reveal_strlit("mouseleftdrag");
    reveal_strlit("mouseright");
    reveal_strlit("mouserightup");
    reveal_strlit("mouserightdrag");
    reveal_strlit("mousemiddle");
    reveal_strlit("mousemiddleup");
    reveal_strlit("mousemiddledrag");
    reveal_strlit("mousewheelup");
    reveal_strlit("mousewheeldown");
}

/// A key that compares equal, as the terminal library compares keys, to a key with no
/// modifier that is not an uppercase letter, is that key, with no modifier.
pub proof fn lemma_normal_plain(code: KeyCode, mods: u8, t: KeyCode)
    requires
        normal_key(code, mods) == normal_key(t, 0),
        !(t matches KeyCode::Char(c) && 'A' <= c <= 'Z'),
    ensures
        code == t,
        mods == 0,
{
    assert((mods | 1u8) != 0u8) by (bit_vector);
    assert(0u8 & 1u8 == 0u8) by (bit_vector);
}

/// The key combinations the viewer knows and the commands they give.
pub open spec fn key_table() -> Seq<(&'static str, UserCommand)> {
    seq![
        ("Ctrl+W", UserCommand::Quit),
        ("Shift+Q", UserCommand::Quit),
        ("Q", UserCommand::Quit),
        ("Esc", UserCommand::Quit),
        ("Up", UserCommand::ScrollUp),
        ("Down", UserCommand::ScrollDown),
        ("Ctrl+Left", UserCommand::PanLeftMax),
        ("Ctrl+Right", UserCommand::PanRightMax),
        ("Left", UserCommand::PanLeft),
        ("Right", UserCommand::PanRight),
        ("PageUp", UserCommand::PageUp),
        ("PageDown", UserCommand::PageDown),
        ("Home", UserCommand::ScrollToTop),
        ("End", UserCommand::ScrollToBottom),
        ("&", UserCommand::FilterPrompt),
        ("/", UserCommand::ForwardSearchPrompt),
        ("?", UserCommand::BackwardSearchPrompt),
        ("N", UserCommand::SearchNext),
        ("Shift+N", UserCommand::SearchPrev),
        ("R", UserCommand::RefreshDisplay),
        ("Ctrl+R", UserCommand::RefreshDisplay),
        ("Ctrl+L", UserCommand::RefreshDisplay),
        ("Shift+R", UserCommand::RefreshDisplay),
        ("B", UserCommand::PageUp),
        ("Ctrl+B", UserCommand::PageUp),
        ("W", UserCommand::PageUpSticky),
        (" ", UserCommand::PageDown),
        ("Ctrl+V", UserCommand::PageDown),
        ("Ctrl+F", UserCommand::PageDown),
        ("F", UserCommand::PageDown),
        ("Z", UserCommand::PageDownSticky),
        ("G", UserCommand::SeekStartLine),
        ("<", UserCommand::SeekStartLine),
        ("Shift+G", UserCommand::SeekEndLine),
        (">", UserCommand::SeekEndLine),
        ("P", UserCommand::GotoPercent),
        ("%", UserCommand::GotoPercent),
        ("Shift+P", UserCommand::GotoOffset),
        ("Enter", UserCommand::ScrollDown),
        ("J", UserCommand::ScrollDown),
        ("Shift+J", UserCommand::ScrollDown),
        ("Ctrl+J", UserCommand::ScrollDown),
        ("E", UserCommand::ScrollDown),
        ("Ctrl+E", UserCommand::ScrollDown),
        ("Y", UserCommand::ScrollUp),
        ("K", UserCommand::ScrollUp),
        ("Shift+Y", UserCommand::ScrollUp),
        ("Shift+K", UserCommand::ScrollUp),
        ("Ctrl+Y", UserCommand::ScrollUp),
        ("Ctrl+P", UserCommand::ScrollUp),
        ("Ctrl+K", UserCommand::ScrollUp),
        ("D", UserCommand::HalfPageDown),
        ("Ctrl+D", UserCommand::HalfPageDown),
        ("U", UserCommand::HalfPageUp),
        ("Ctrl+U", UserCommand::HalfPageUp),
        ("Shift+F", UserCommand::SeekEndLine),
        ("M", UserCommand::SetBookmarkTop),
        ("Shift+M", UserCommand::SetBookmarkBottom),
        ("'", UserCommand::GotoBookmark),
        ("Ctrl+X", UserCommand::GotoBookmark),
        ("0", UserCommand::CollectDigits(0)),
        ("1", UserCommand::CollectDigits(1)),
        ("2", UserCommand::CollectDigits(2)),
        ("3", UserCommand::CollectDigits(3)),
        ("4", UserCommand::CollectDigits(4)),
        ("5", UserCommand::CollectDigits(5)),
        ("6", UserCommand::CollectDigits(6)),
        ("7", UserCommand::CollectDigits(7)),
        ("8", UserCommand::CollectDigits(8)),
        ("9", UserCommand::CollectDigits(9)),
        (".", UserCommand::CollectDecimal),
        ("MouseLeft", UserCommand::SelectWordAt(0, 0)),
        ("MouseLeftDrag", UserCommand::SelectWordDrag(0, 0)),
        ("MouseWheelUp", UserCommand::MouseScrollUp),
        ("MouseWheelDown", UserCommand::MouseScrollDown),
    ]
}

/// The lowercase form of an ASCII text.
pub open spec fn ascii_lowered(s: Seq<char>) -> Seq<char> {
    s.map_values(|c: char| ascii_lower(c))
}

/// What the names of the key table say of the keys and mouse actions they name alone: every
/// name is ASCII; the entry of each binds its command, and no later entry names the same key
/// or action, in any letter case.
pub proof fn lemma_table_entry(i: int)
    requires
        0 <= i < key_table().len(),
    ensures
        is_ascii_text(key_table()[i].0@),
        i == 2 ==> key_table()[i].1 == UserCommand::Quit && ascii_lowered(key_table()[i].0@) == key_word(KeyCode::Char('q')),
        i > 2 ==> ascii_lowered(key_table()[i].0@) != key_word(KeyCode::Char('q')),
        i == 3 ==> key_table()[i].1 == UserCommand::Quit && ascii_lowered(key_table()[i].0@) == key_word(KeyCode::Esc),
        i > 3 ==> ascii_lowered(key_table()[i].0@) != key_word(KeyCode::Esc),
        i == 4 ==> key_table()[i].1 == UserCommand::ScrollUp && ascii_lowered(key_table()[i].0@) == key_word(KeyCode::Up),
        i > 4 ==> ascii_lowered(key_table()[i].0@) != key_word(KeyCode::Up),
        i == 5 ==> key_table()[i].1 == UserCommand::ScrollDown && ascii_lowered(key_table()[i].0@) == key_word(KeyCode::Down),
        i > 5 ==> ascii_lowered(key_table()[i].0@) != key_word(KeyCode::Down),
        i == 8 ==> key_table()[i].1 == UserCommand::PanLeft && ascii_lowered(key_table()[i].0@) == key_word(KeyCode::Left),
        i > 8 ==> ascii_lowered(key_table()[i].0@) != key_word(KeyCode::Left),
        i == 9 ==> key_table()[i].1 == UserCommand::PanRight && ascii_lowered(key_table()[i].0@) == key_word(KeyCode::Right),
        i > 9 ==> ascii_lowered(key_table()[i].0@) != key_word(KeyCode::Right),
        i == 10 ==> key_table()[i].1 == UserCommand::PageUp && ascii_lowered(key_table()[i].0@) == key_word(KeyCode::PageUp),
        i > 10 ==> ascii_lowered(key_table()[i].0@) != key_word(KeyCode::PageUp),
        i == 11 ==> key_table()[i].1 == UserCommand::PageDown && ascii_lowered(key_table()[i].0@) == key_word(KeyCode::PageDown),
        i > 11 ==> ascii_lowered(key_table()[i].0@) != key_word(KeyCode::PageDown),
        i == 12 ==> key_table()[i].1 == UserCommand::ScrollToTop && ascii_lowered(key_table()[i].0@) == key_word(KeyCode::Home),
        i > 12 ==> ascii_lowered(key_table()[i].0@) != key_word(KeyCode::Home),
        i == 13 ==> key_table()[i].1 == UserCommand::ScrollToBottom && ascii_lowered(key_table()[i].0@) == key_word(KeyCode::End),
        i > 13 ==> ascii_lowered(key_table()[i].0@) != key_word(KeyCode::End),
        i == 14 ==> key_table()[i].1 == UserCommand::FilterPrompt && ascii_lowered(key_table()[i].0@) == key_word(KeyCode::Char('&')),
        i > 14 ==> ascii_lowered(key_table()[i].0@) != key_word(KeyCode::Char('&')),
        i == 15 ==> key_table()[i].1 == UserCommand::ForwardSearchPrompt && ascii_lowered(key_table()[i].0@) == key_word(KeyCode::Char('/')),
        i > 15 ==> ascii_lowered(key_table()[i].0@) != key_word(KeyCode::Char('/')),
        i == 16 ==> key_table()[i].1 == UserCommand::BackwardSearchPrompt && ascii_lowered(key_table()[i].0@) == key_word(KeyCode::Char('?')),
        i > 16 ==> ascii_lowered(key_table()[i].0@) != key_word(KeyCode::Char('?')),
        i == 17 ==> key_table()[i].1 == UserCommand::SearchNext && ascii_lowered(key_table()[i].0@) == key_word(KeyCode::Char('n')),
        i > 17 ==> ascii_lowered(key_table()[i].0@) != key_word(KeyCode::Char('n')),
        i == 19 ==> key_table()[i].1 == UserCommand::RefreshDisplay && ascii_lowered(key_table()[i].0@) == key_word(KeyCode::Char('r')),
        i > 19 ==> ascii_lowered(key_table()[i].0@) != key_word(KeyCode::Char('r')),
        i == 23 ==> key_table()[i].1 == UserCommand::PageUp && ascii_lowered(key_table()[i].0@) == key_word(KeyCode::Char('b')),
        i > 23 ==> ascii_lowered(key_table()[i].0@) != key_word(KeyCode::Char('b')),
        i == 25 ==> key_table()[i].1 == UserCommand::PageUpSticky && ascii_lowered(key_table()[i].0@) == key_word(KeyCode::Char('w')),
        i > 25 ==> ascii_lowered(key_table()[i].0@) != key_word(KeyCode::Char('w')),
        i == 26 ==> key_table()[i].1 == UserCommand::PageDown && ascii_lowered(key_table()[i].0@) == key_word(KeyCode::Char(' ')),
        i > 26 ==> ascii_lowered(key_table()[i].0@) != key_word(KeyCode::Char(' ')),
        i == 29 ==> key_table()[i].1 == UserCommand::PageDown && ascii_lowered(key_table()[i].0@) == key_word(KeyCode::Char('f')),
        i > 29 ==> ascii_lowered(key_table()[i].0@) != key_word(KeyCode::Char('f')),
        i == 30 ==> key_table()[i].1 == UserCommand::PageDownSticky && ascii_lowered(key_table()[i].0@) == key_word(KeyCode::Char('z')),
        i > 30 ==> ascii_lowered(key_table()[i].0@) != key_word(KeyCode::Char('z')),
        i == 31 ==> key_table()[i].1 == UserCommand::SeekStartLine && ascii_lowered(key_table()[i].0@) == key_word(KeyCode::Char('g')),
        i > 31 ==> ascii_lowered(key_table()[i].0@) != key_word(KeyCode::Char('g')),
        i == 32 ==> key_table()[i].1 == UserCommand::SeekStartLine && ascii_lowered(key_table()[i].0@) == key_word(KeyCode::Char('<')),
        i > 32 ==> ascii_lowered(key_table()[i].0@) != key_word(KeyCode::Char('<')),
        i == 34 ==> key_table()[i].1 == UserCommand::SeekEndLine && ascii_lowered(key_table()[i].0@) == key_word(KeyCode::Char('>')),
        i > 34 ==> ascii_lowered(key_table()[i].0@) != key_word(KeyCode::Char('>')),
        i == 35 ==> key_table()[i].1 == UserCommand::GotoPercent && ascii_lowered(key_table()[i].0@) == key_word(KeyCode::Char('p')),
        i > 35 ==> ascii_lowered(key_table()[i].0@) != key_word(KeyCode::Char('p')),
        i == 36 ==> key_table()[i].1 == UserCommand::GotoPercent && ascii_lowered(key_table()[i].0@) == key_word(KeyCode::Char('%')),
        i > 36 ==> ascii_lowered(key_table()[i].0@) != key_word(KeyCode::Char('%')),
        i == 38 ==> key_table()[i].1 == UserCommand::ScrollDown && ascii_lowered(key_table()[i].0@) == key_word(KeyCode::Enter),
        i > 38 ==> ascii_lowered(key_table()[i].0@) != key_word(KeyCode::Enter),
        i == 39 ==> key_table()[i].1 == UserCommand::ScrollDown && ascii_lowered(key_table()[i].0@) == key_word(KeyCode::Char('j')),
        i > 39 ==> ascii_lowered(key_table()[i].0@) != key_word(KeyCode::Char('j')),
        i == 42 ==> key_table()[i].1 == UserCommand::ScrollDown && ascii_lowered(key_table()[i].0@) == key_word(KeyCode::Char('e')),
        i > 42 ==> ascii_lowered(key_table()[i].0@) != key_word(KeyCode::Char('e')),
        i == 44 ==> key_table()[i].1 == UserCommand::ScrollUp && ascii_lowered(key_table()[i].0@) == key_word(KeyCode::Char('y')),
        i > 44 ==> ascii_lowered(key_table()[i].0@) != key_word(KeyCode::Char('y')),
        i == 45 ==> key_table()[i].1 == UserCommand::ScrollUp && ascii_lowered(key_table()[i].0@) == key_word(KeyCode::Char('k')),
        i > 45 ==> ascii_lowered(key_table()[i].0@) != key_word(KeyCode::Char('k')),
        i == 51 ==> key_table()[i].1 == UserCommand::HalfPageDown && ascii_lowered(key_table()[i].0@) == key_word(KeyCode::Char('d')),
        i > 51 ==> ascii_lowered(key_table()[i].0@) != key_word(KeyCode::Char('d')),
        i == 53 ==> key_table()[i].1 == UserCommand::HalfPageUp && ascii_lowered(key_table()[i].0@) == key_word(KeyCode::Char('u')),
        i > 53 ==> ascii_lowered(key_table()[i].0@) != key_word(KeyCode::Char('u')),
        i == 56 ==> key_table()[i].1 == UserCommand::SetBookmarkTop && ascii_lowered(key_table()[i].0@) == key_word(KeyCode::Char('m')),
        i > 56 ==> ascii_lowered(key_table()[i].0@) != key_word(KeyCode::Char('m')),
        i == 58 ==> key_table()[i].1 == UserCommand::GotoBookmark && ascii_lowered(key_table()[i].0@) == key_word(KeyCode::Char('\'')),
        i > 58 ==> ascii_lowered(key_table()[i].0@) != key_word(KeyCode::Char('\'')),
        i == 60 ==> key_table()[i].1 == UserCommand::CollectDigits(0) && ascii_lowered(key_table()[i].0@) == key_word(KeyCode::Char('0')),
        i > 60 ==> ascii_lowered(key_table()[i].0@) != key_word(KeyCode::Char('0')),
        i == 61 ==> key_table()[i].1 == UserCommand::CollectDigits(1) && ascii_lowered(key_table()[i].0@) == key_word(KeyCode::Char('1')),
        i > 61 ==> ascii_lowered(key_table()[i].0@) != key_word(KeyCode::Char('1')),
        i == 62 ==> key_table()[i].1 == UserCommand::CollectDigits(2) && ascii_lowered(key_table()[i].0@) == key_word(KeyCode::Char('2')),
        i > 62 ==> ascii_lowered(key_table()[i].0@) != key_word(KeyCode::Char('2')),
        i == 63 ==> key_table()[i].1 == UserCommand::CollectDigits(3) && ascii_lowered(key_table()[i].0@) == key_word(KeyCode::Char('3')),
        i > 63 ==> ascii_lowered(key_table()[i].0@) != key_word(KeyCode::Char('3')),
        i == 64 ==> key_table()[i].1 == UserCommand::CollectDigits(4) && ascii_lowered(key_table()[i].0@) == key_word(KeyCode::Char('4')),
        i > 64 ==> ascii_lowered(key_table()[i].0@) != key_word(KeyCode::Char('4')),
        i == 65 ==> key_table()[i].1 == UserCommand::CollectDigits(5) && ascii_lowered(key_table()[i].0@) == key_word(KeyCode::Char('5')),
        i > 65 ==> ascii_lowered(key_table()[i].0@) != key_word(KeyCode::Char('5')),
        i == 66 ==> key_table()[i].1 == UserCommand::CollectDigits(6) && ascii_lowered(key_table()[i].0@) == key_word(KeyCode::Char('6')),
        i > 66 ==> ascii_lowered(key_table()[i].0@) != key_word(KeyCode::Char('6')),
        i == 67 ==> key_table()[i].1 == UserCommand::CollectDigits(7) && ascii_lowered(key_table()[i].0@) == key_word(KeyCode::Char('7')),
        i > 67 ==> ascii_lowered(key_table()[i].0@) != key_word(KeyCode::Char('7')),
        i == 68 ==> key_table()[i].1 == UserCommand::CollectDigits(8) && ascii_lowered(key_table()[i].0@) == key_word(KeyCode::Char('8')),
        i > 68 ==> ascii_lowered(key_table()[i].0@) != key_word(KeyCode::Char('8')),
        i == 69 ==> key_table()[i].1 == UserCommand::CollectDigits(9) && ascii_lowered(key_table()[i].0@) == key_word(KeyCode::Char('9')),
        i > 69 ==> ascii_lowered(key_table()[i].0@) != key_word(KeyCode::Char('9')),
        i == 70 ==> key_table()[i].1 == UserCommand::CollectDecimal && ascii_lowered(key_table()[i].0@) == key_word(KeyCode::Char('.')),
        i > 70 ==> ascii_lowered(key_table()[i].0@) != key_word(KeyCode::Char('.')),
        i == 71 ==> key_table()[i].1 == UserCommand::SelectWordAt(0, 0) && ascii_lowered(key_table()[i].0@) == mouse_word(MouseAction::Down(MouseButton::Left)),
        i > 71 ==> ascii_lowered(key_table()[i].0@) != mouse_word(MouseAction::Down(MouseButton::Left)),
        i == 72 ==> key_table()[i].1 == UserCommand::SelectWordDrag(0, 0) && ascii_lowered(key_table()[i].0@) == mouse_word(MouseAction::Drag(MouseButton::Left)),
        i > 72 ==> ascii_lowered(key_table()[i].0@) != mouse_word(MouseAction::Drag(MouseButton::Left)),
        i == 73 ==> key_table()[i].1 == UserCommand::MouseScrollUp && ascii_lowered(key_table()[i].0@) == mouse_word(MouseAction::ScrollUp),
        i > 73 ==> ascii_lowered(key_table()[i].0@) != mouse_word(MouseAction::ScrollUp),
        i == 74 ==> key_table()[i].1 == UserCommand::MouseScrollDown && ascii_lowered(key_table()[i].0@) == mouse_word(MouseAction::ScrollDown),
        i > 74 ==> ascii_lowered(key_table()[i].0@) != mouse_word(MouseAction::ScrollDown),
{
    reveal_strlit("up");
    reveal_strlit("down");
    reveal_strlit("left");
    reveal_strlit("right");
    reveal_strlit("pageup");
    reveal_strlit("pagedown");
    reveal_strlit("home");
    reveal_strlit("end");
    reveal_strlit("esc");
    reveal_strlit("enter");
    reveal_strlit("mouseleft");
    reveal_strlit("mouseleftdrag");
    reveal_strlit("mousewheelup");
    reveal_strlit("mousewheeldown");
    let n = key_table()[i].0@;
    let low = ascii_lowered(n);
    assert(low.len() == n.len());
    if i == 0 {
        reveal_strlit("Ctrl+W");
        assert(n == "Ctrl+W"@);
    } else if i == 1 {
        reveal_strlit("Shift+Q");
        assert(n == "Shift+Q"@);
    } else if i == 2 {
        reveal_strlit("Q");
        assert(n == "Q"@);
        assert(low[0] == 'q');
        assert(low =~= key_word(KeyCode::Char('q')));
    } else if i == 3 {
        reveal_strlit("Esc");
        assert(n == "Esc"@);
        assert(low[0] == 'e');
        assert(low[1] == 's');
        assert(low[2] == 'c');
        assert(low =~= key_word(KeyCode::Esc));
    } else if i == 4 {
        reveal_strlit("Up");
        assert(n == "Up"@);
        assert(low[0] == 'u');
        assert(low[1] == 'p');
        assert(low =~= key_word(KeyCode::Up));
    } else if i == 5 {
        reveal_strlit("Down");
        assert(n == "Down"@);
        assert(low[0] == 'd');
        assert(low[1] == 'o');
        assert(low[2] == 'w');
        assert(low[3] == 'n');
        assert(low =~= key_word(KeyCode::Down));
    } else if i == 6 {
        reveal_strlit("Ctrl+Left");
        assert(n == "Ctrl+Left"@);
    } else if i == 7 {
        reveal_strlit("Ctrl+Right");
        assert(n == "Ctrl+Right"@);
    } else if i == 8 {
        reveal_strlit("Left");
        assert(n == "Left"@);
        assert(low[0] == 'l' && key_word(KeyCode::Down)[0] == 'd');
        assert(low[0] == 'l');
        assert(low[1] == 'e');
        assert(low[2] == 'f');
        assert(low[3] == 't');
        assert(low =~= key_word(KeyCode::Left));
    } else if i == 9 {
        reveal_strlit("Right");
        assert(n == "Right"@);
        assert(low[0] == 'r');
        assert(low[1] == 'i');
        assert(low[2] == 'g');
        assert(low[3] == 'h');
        assert(low[4] == 't');
        assert(low =~= key_word(KeyCode::Right));
    } else if i == 10 {
        reveal_strlit("PageUp");
        assert(n == "PageUp"@);
        assert(low[0] == 'p');
        assert(low[1] == 'a');
        assert(low[2] == 'g');
        assert(low[3] == 'e');
        assert(low[4] == 'u');
        assert(low[5] == 'p');
        assert(low =~= key_word(KeyCode::PageUp));
    } else if i == 11 {
        reveal_strlit("PageDown");
        assert(n == "PageDown"@);
        assert(low[0] == 'p');
        assert(low[1] == 'a');
        assert(low[2] == 'g');
        assert(low[3] == 'e');
        assert(low[4] == 'd');
        assert(low[5] == 'o');
        assert(low[6] == 'w');
        assert(low[7] == 'n');
        assert(low =~= key_word(KeyCode::PageDown));
    } else if i == 12 {
        reveal_strlit("Home");
        assert(n == "Home"@);
        assert(low[0] == 'h' && key_word(KeyCode::Down)[0] == 'd');
        assert(low[0] == 'h' && key_word(KeyCode::Left)[0] == 'l');
        assert(low[0] == 'h');
        assert(low[1] == 'o');
        assert(low[2] == 'm');
        assert(low[3] == 'e');
        assert(low =~= key_word(KeyCode::Home));
    } else if i == 13 {
        reveal_strlit("End");
        assert(n == "End"@);
        assert(low[1] == 'n' && key_word(KeyCode::Esc)[1] == 's');
        assert(low[0] == 'e');
        assert(low[1] == 'n');
        assert(low[2] == 'd');
        assert(low =~= key_word(KeyCode::End));
    } else if i == 14 {
        reveal_strlit("&");
        assert(n == "&"@);
        assert(low[0] == '&' && key_word(KeyCode::Char('q'))[0] == 'q');
        assert(low[0] == '&');
        assert(low =~= key_word(KeyCode::Char('&')));
    } else if i == 15 {
        reveal_strlit("/");
        assert(n == "/"@);
        assert(low[0] == '/' && key_word(KeyCode::Char('q'))[0] == 'q');
        assert(low[0] == '/' && key_word(KeyCode::Char('&'))[0] == '&');
        assert(low[0] == '/');
        assert(low =~= key_word(KeyCode::Char('/')));
    } else if i == 16 {
        reveal_strlit("?");
        assert(n == "?"@);
        assert(low[0] == '?' && key_word(KeyCode::Char('q'))[0] == 'q');
        assert(low[0] == '?' && key_word(KeyCode::Char('&'))[0] == '&');
        assert(low[0] == '?' && key_word(KeyCode::Char('/'))[0] == '/');
        assert(low[0] == '?');
        assert(low =~= key_word(KeyCode::Char('?')));
    } else if i == 17 {
        reveal_strlit("N");
        assert(n == "N"@);
        assert(low[0] == 'n' && key_word(KeyCode::Char('q'))[0] == 'q');
        assert(low[0] == 'n' && key_word(KeyCode::Char('&'))[0] == '&');
        assert(low[0] == 'n' && key_word(KeyCode::Char('/'))[0] == '/');
        assert(low[0] == 'n' && key_word(KeyCode::Char('?'))[0] == '?');
        assert(low[0] == 'n');
        assert(low =~= key_word(KeyCode::Char('n')));
    } else if i == 18 {
        reveal_strlit("Shift+N");
        assert(n == "Shift+N"@);
    } else if i == 19 {
        reveal_strlit("R");
        assert(n == "R"@);
        assert(low[0] == 'r' && key_word(KeyCode::Char('q'))[0] == 'q');
        assert(low[0] == 'r' && key_word(KeyCode::Char('&'))[0] == '&');
        assert(low[0] == 'r' && key_word(KeyCode::Char('/'))[0] == '/');
        assert(low[0] == 'r' && key_word(KeyCode::Char('?'))[0] == '?');
        assert(low[0] == 'r' && key_word(KeyCode::Char('n'))[0] == 'n');
        assert(low[0] == 'r');
        assert(low =~= key_word(KeyCode::Char('r')));
    } else if i == 20 {
        reveal_strlit("Ctrl+R");
        assert(n == "Ctrl+R"@);
        assert(low[0] == 'c' && key_word(KeyCode::PageUp)[0] == 'p');
    } else if i == 21 {
        reveal_strlit("Ctrl+L");
        assert(n == "Ctrl+L"@);
        assert(low[0] == 'c' && key_word(KeyCode::PageUp)[0] == 'p');
    } else if i == 22 {
        reveal_strlit("Shift+R");
        assert(n == "Shift+R"@);
    } else if i == 23 {
        reveal_strlit("B");
        assert(n == "B"@);
        assert(low[0] == 'b' && key_word(KeyCode::Char('q'))[0] == 'q');
        assert(low[0] == 'b' && key_word(KeyCode::Char('&'))[0] == '&');
        assert(low[0] == 'b' && key_word(KeyCode::Char('/'))[0] == '/');
        assert(low[0] == 'b' && key_word(KeyCode::Char('?'))[0] == '?');
        assert(low[0] == 'b' && key_word(KeyCode::Char('n'))[0] == 'n');
        assert(low[0] == 'b' && key_word(KeyCode::Char('r'))[0] == 'r');
        assert(low[0] == 'b');
        assert(low =~= key_word(KeyCode::Char('b')));
    } else if i == 24 {
        reveal_strlit("Ctrl+B");
        assert(n == "Ctrl+B"@);
        assert(low[0] == 'c' && key_word(KeyCode::PageUp)[0] == 'p');
    } else if i == 25 {
        reveal_strlit("W");
        assert(n == "W"@);
        assert(low[0] == 'w' && key_word(KeyCode::Char('q'))[0] == 'q');
        assert(low[0] == 'w' && key_word(KeyCode::Char('&'))[0] == '&');
        assert(low[0] == 'w' && key_word(KeyCode::Char('/'))[0] == '/');
        assert(low[0] == 'w' && key_word(KeyCode::Char('?'))[0] == '?');
        assert(low[0] == 'w' && key_word(KeyCode::Char('n'))[0] == 'n');
        assert(low[0] == 'w' && key_word(KeyCode::Char('r'))[0] == 'r');
        assert(low[0] == 'w' && key_word(KeyCode::Char('b'))[0] == 'b');
        assert(low[0] == 'w');
        assert(low =~= key_word(KeyCode::Char('w')));
    } else if i == 26 {
        reveal_strlit(" ");
        assert(n == " "@);
        assert(low[0] == ' ' && key_word(KeyCode::Char('q'))[0] == 'q');
        assert(low[0] == ' ' && key_word(KeyCode::Char('&'))[0] == '&');
        assert(low[0] == ' ' && key_word(KeyCode::Char('/'))[0] == '/');
        assert(low[0] == ' ' && key_word(KeyCode::Char('?'))[0] == '?');
        assert(low[0] == ' ' && key_word(KeyCode::Char('n'))[0] == 'n');
        assert(low[0] == ' ' && key_word(KeyCode::Char('r'))[0] == 'r');
        assert(low[0] == ' ' && key_word(KeyCode::Char('b'))[0] == 'b');
        assert(low[0] == ' ' && key_word(KeyCode::Char('w'))[0] == 'w');
        assert(low[0] == ' ');
        assert(low =~= key_word(KeyCode::Char(' ')));
    } else if i == 27 {
        reveal_strlit("Ctrl+V");
        assert(n == "Ctrl+V"@);
        assert(low[0] == 'c' && key_word(KeyCode::PageUp)[0] == 'p');
    } else if i == 28 {
        reveal_strlit("Ctrl+F");
        assert(n == "Ctrl+F"@);
        assert(low[0] == 'c' && key_word(KeyCode::PageUp)[0] == 'p');
    } else if i == 29 {
        reveal_strlit("F");
        assert(n == "F"@);
        assert(low[0] == 'f' && key_word(KeyCode::Char('q'))[0] == 'q');
        assert(low[0] == 'f' && key_word(KeyCode::Char('&'))[0] == '&');
        assert(low[0] == 'f' && key_word(KeyCode::Char('/'))[0] == '/');
        assert(low[0] == 'f' && key_word(KeyCode::Char('?'))[0] == '?');
        assert(low[0] == 'f' && key_word(KeyCode::Char('n'))[0] == 'n');
        assert(low[0] == 'f' && key_word(KeyCode::Char('r'))[0] == 'r');
        assert(low[0] == 'f' && key_word(KeyCode::Char('b'))[0] == 'b');
        assert(low[0] == 'f' && key_word(KeyCode::Char('w'))[0] == 'w');
        assert(low[0] == 'f' && key_word(KeyCode::Char(' '))[0] == ' ');
        assert(low[0] == 'f');
        assert(low =~= key_word(KeyCode::Char('f')));
    } else if i == 30 {
        reveal_strlit("Z");
        assert(n == "Z"@);
        assert(low[0] == 'z' && key_word(KeyCode::Char('q'))[0] == 'q');
        assert(low[0] == 'z' && key_word(KeyCode::Char('&'))[0] == '&');
        assert(low[0] == 'z' && key_word(KeyCode::Char('/'))[0] == '/');
        assert(low[0] == 'z' && key_word(KeyCode::Char('?'))[0] == '?');
        assert(low[0] == 'z' && key_word(KeyCode::Char('n'))[0] == 'n');
        assert(low[0] == 'z' && key_word(KeyCode::Char('r'))[0] == 'r');
        assert(low[0] == 'z' && key_word(KeyCode::Char('b'))[0] == 'b');
        assert(low[0] == 'z' && key_word(KeyCode::Char('w'))[0] == 'w');
        assert(low[0] == 'z' && key_word(KeyCode::Char(' '))[0] == ' ');
        assert(low[0] == 'z' && key_word(KeyCode::Char('f'))[0] == 'f');
        assert(low[0] == 'z');
        assert(low =~= key_word(KeyCode::Char('z')));
    } else if i == 31 {
        reveal_strlit("G");
        assert(n == "G"@);
        assert(low[0] == 'g' && key_word(KeyCode::Char('q'))[0] == 'q');
        assert(low[0] == 'g' && key_word(KeyCode::Char('&'))[0] == '&');
        assert(low[0] == 'g' && key_word(KeyCode::Char('/'))[0] == '/');
        assert(low[0] == 'g' && key_word(KeyCode::Char('?'))[0] == '?');
        assert(low[0] == 'g' && key_word(KeyCode::Char('n'))[0] == 'n');
        assert(low[0] == 'g' && key_word(KeyCode::Char('r'))[0] == 'r');
        assert(low[0] == 'g' && key_word(KeyCode::Char('b'))[0] == 'b');
        assert(low[0] == 'g' && key_word(KeyCode::Char('w'))[0] == 'w');
        assert(low[0] == 'g' && key_word(KeyCode::Char(' '))[0] == ' ');
        assert(low[0] == 'g' && key_word(KeyCode::Char('f'))[0] == 'f');
        assert(low[0] == 'g' && key_word(KeyCode::Char('z'))[0] == 'z');
        assert(low[0] == 'g');
        assert(low =~= key_word(KeyCode::Char('g')));
    } else if i == 32 {
        reveal_strlit("<");
        assert(n == "<"@);
        assert(low[0] == '<' && key_word(KeyCode::Char('q'))[0] == 'q');
        assert(low[0] == '<' && key_word(KeyCode::Char('&'))[0] == '&');
        assert(low[0] == '<' && key_word(KeyCode::Char('/'))[0] == '/');
        assert(low[0] == '<' && key_word(KeyCode::Char('?'))[0] == '?');
        assert(low[0] == '<' && key_word(KeyCode::Char('n'))[0] == 'n');
        assert(low[0] == '<' && key_word(KeyCode::Char('r'))[0] == 'r');
        assert(low[0] == '<' && key_word(KeyCode::Char('b'))[0] == 'b');
        assert(low[0] == '<' && key_word(KeyCode::Char('w'))[0] == 'w');
        assert(low[0] == '<' && key_word(KeyCode::Char(' '))[0] == ' ');
        assert(low[0] == '<' && key_word(KeyCode::Char('f'))[0] == 'f');
        assert(low[0] == '<' && key_word(KeyCode::Char('z'))[0] == 'z');
        assert(low[0] == '<' && key_word(KeyCode::Char('g'))[0] == 'g');
        assert(low[0] == '<');
        assert(low =~= key_word(KeyCode::Char('<')));
    } else if i == 33 {
        reveal_strlit("Shift+G");
        assert(n == "Shift+G"@);
    } else if i == 34 {
        reveal_strlit(">");
        assert(n == ">"@);
        assert(low[0] == '>' && key_word(KeyCode::Char('q'))[0] == 'q');
        assert(low[0] == '>' && key_word(KeyCode::Char('&'))[0] == '&');
        assert(low[0] == '>' && key_word(KeyCode::Char('/'))[0] == '/');
        assert(low[0] == '>' && key_word(KeyCode::Char('?'))[0] == '?');
        assert(low[0] == '>' && key_word(KeyCode::Char('n'))[0] == 'n');
        assert(low[0] == '>' && key_word(KeyCode::Char('r'))[0] == 'r');
        assert(low[0] == '>' && key_word(KeyCode::Char('b'))[0] == 'b');
        assert(low[0] == '>' && key_word(KeyCode::Char('w'))[0] == 'w');
        assert(low[0] == '>' && key_word(KeyCode::Char(' '))[0] == ' ');
        assert(low[0] == '>' && key_word(KeyCode::Char('f'))[0] == 'f');
        assert(low[0] == '>' && key_word(KeyCode::Char('z'))[0] == 'z');
        assert(low[0] == '>' && key_word(KeyCode::Char('g'))[0] == 'g');
        assert(low[0] == '>' && key_word(KeyCode::Char('<'))[0] == '<');
        assert(low[0] == '>');
        assert(low =~= key_word(KeyCode::Char('>')));
    } else if i == 35 {
        reveal_strlit("P");
        assert(n == "P"@);
        assert(low[0] == 'p' && key_word(KeyCode::Char('q'))[0] == 'q');
        assert(low[0] == 'p' && key_word(KeyCode::Char('&'))[0] == '&');
        assert(low[0] == 'p' && key_word(KeyCode::Char('/'))[0] == '/');
        assert(low[0] == 'p' && key_word(KeyCode::Char('?'))[0] == '?');
        assert(low[0] == 'p' && key_word(KeyCode::Char('n'))[0] == 'n');
        assert(low[0] == 'p' && key_word(KeyCode::Char('r'))[0] == 'r');
        assert(low[0] == 'p' && key_word(KeyCode::Char('b'))[0] == 'b');
        assert(low[0] == 'p' && key_word(KeyCode::Char('w'))[0] == 'w');
        assert(low[0] == 'p' && key_word(KeyCode::Char(' '))[0] == ' ');
        assert(low[0] == 'p' && key_word(KeyCode::Char('f'))[0] == 'f');
        assert(low[0] == 'p' && key_word(KeyCode::Char('z'))[0] == 'z');
        assert(low[0] == 'p' && key_word(KeyCode::Char('g'))[0] == 'g');
        assert(low[0] == 'p' && key_word(KeyCode::Char('<'))[0] == '<');
        assert(low[0] == 'p' && key_word(KeyCode::Char('>'))[0] == '>');
        assert(low[0] == 'p');
        assert(low =~= key_word(KeyCode::Char('p')));
    } else if i == 36 {
        reveal_strlit("%");
        assert(n == "%"@);
        assert(low[0] == '%' && key_word(KeyCode::Char('q'))[0] == 'q');
        assert(low[0] == '%' && key_word(KeyCode::Char('&'))[0] == '&');
        assert(low[0] == '%' && key_word(KeyCode::Char('/'))[0] == '/');
        assert(low[0] == '%' && key_word(KeyCode::Char('?'))[0] == '?');
        assert(low[0] == '%' && key_word(KeyCode::Char('n'))[0] == 'n');
        assert(low[0] == '%' && key_word(KeyCode::Char('r'))[0] == 'r');
        assert(low[0] == '%' && key_word(KeyCode::Char('b'))[0] == 'b');
        assert(low[0] == '%' && key_word(KeyCode::Char('w'))[0] == 'w');
        assert(low[0] == '%' && key_word(KeyCode::Char(' '))[0] == ' ');
        assert(low[0] == '%' && key_word(KeyCode::Char('f'))[0] == 'f');
        assert(low[0] == '%' && key_word(KeyCode::Char('z'))[0] == 'z');
        assert(low[0] == '%' && key_word(KeyCode::Char('g'))[0] == 'g');
        assert(low[0] == '%' && key_word(KeyCode::Char('<'))[0] == '<');
        assert(low[0] == '%' && key_word(KeyCode::Char('>'))[0] == '>');
        assert(low[0] == '%' && key_word(KeyCode::Char('p'))[0] == 'p');
        assert(low[0] == '%');
        assert(low =~= key_word(KeyCode::Char('%')));
    } else if i == 37 {
        reveal_strlit("Shift+P");
        assert(n == "Shift+P"@);
    } else if i == 38 {
        reveal_strlit("Enter");
        assert(n == "Enter"@);
        assert(low[0] == 'e' && key_word(KeyCode::Right)[0] == 'r');
        assert(low[0] == 'e');
        assert(low[1] == 'n');
        assert(low[2] == 't');
        assert(low[3] == 'e');
        assert(low[4] == 'r');
        assert(low =~= key_word(KeyCode::Enter));
    } else if i == 39 {
        reveal_strlit("J");
        assert(n == "J"@);
        assert(low[0] == 'j' && key_word(KeyCode::Char('q'))[0] == 'q');
        assert(low[0] == 'j' && key_word(KeyCode::Char('&'))[0] == '&');
        assert(low[0] == 'j' && key_word(KeyCode::Char('/'))[0] == '/');
        assert(low[0] == 'j' && key_word(KeyCode::Char('?'))[0] == '?');
        assert(low[0] == 'j' && key_word(KeyCode::Char('n'))[0] == 'n');
        assert(low[0] == 'j' && key_word(KeyCode::Char('r'))[0] == 'r');
        assert(low[0] == 'j' && key_word(KeyCode::Char('b'))[0] == 'b');
        assert(low[0] == 'j' && key_word(KeyCode::Char('w'))[0] == 'w');
        assert(low[0] == 'j' && key_word(KeyCode::Char(' '))[0] == ' ');
        assert(low[0] == 'j' && key_word(KeyCode::Char('f'))[0] == 'f');
        assert(low[0] == 'j' && key_word(KeyCode::Char('z'))[0] == 'z');
        assert(low[0] == 'j' && key_word(KeyCode::Char('g'))[0] == 'g');
        assert(low[0] == 'j' && key_word(KeyCode::Char('<'))[0] == '<');
        assert(low[0] == 'j' && key_word(KeyCode::Char('>'))[0] == '>');
        assert(low[0] == 'j' && key_word(KeyCode::Char('p'))[0] == 'p');
        assert(low[0] == 'j' && key_word(KeyCode::Char('%'))[0] == '%');
        assert(low[0] == 'j');
        assert(low =~= key_word(KeyCode::Char('j')));
    } else if i == 40 {
        reveal_strlit("Shift+J");
        assert(n == "Shift+J"@);
    } else if i == 41 {
        reveal_strlit("Ctrl+J");
        assert(n == "Ctrl+J"@);
        assert(low[0] == 'c' && key_word(KeyCode::PageUp)[0] == 'p');
    } else if i == 42 {
        reveal_strlit("E");
        assert(n == "E"@);
        assert(low[0] == 'e' && key_word(KeyCode::Char('q'))[0] == 'q');
        assert(low[0] == 'e' && key_word(KeyCode::Char('&'))[0] == '&');
        assert(low[0] == 'e' && key_word(KeyCode::Char('/'))[0] == '/');
        assert(low[0] == 'e' && key_word(KeyCode::Char('?'))[0] == '?');
        assert(low[0] == 'e' && key_word(KeyCode::Char('n'))[0] == 'n');
        assert(low[0] == 'e' && key_word(KeyCode::Char('r'))[0] == 'r');
        assert(low[0] == 'e' && key_word(KeyCode::Char('b'))[0] == 'b');
        assert(low[0] == 'e' && key_word(KeyCode::Char('w'))[0] == 'w');
        assert(low[0] == 'e' && key_word(KeyCode::Char(' '))[0] == ' ');
        assert(low[0] == 'e' && key_word(KeyCode::Char('f'))[0] == 'f');
        assert(low[0] == 'e' && key_word(KeyCode::Char('z'))[0] == 'z');
        assert(low[0] == 'e' && key_word(KeyCode::Char('g'))[0] == 'g');
        assert(low[0] == 'e' && key_word(KeyCode::Char('<'))[0] == '<');
        assert(low[0] == 'e' && key_word(KeyCode::Char('>'))[0] == '>');
        assert(low[0] == 'e' && key_word(KeyCode::Char('p'))[0] == 'p');
        assert(low[0] == 'e' && key_word(KeyCode::Char('%'))[0] == '%');
        assert(low[0] == 'e' && key_word(KeyCode::Char('j'))[0] == 'j');
        assert(low[0] == 'e');
        assert(low =~= key_word(KeyCode::Char('e')));
    } else if i == 43 {
        reveal_strlit("Ctrl+E");
        assert(n == "Ctrl+E"@);
        assert(low[0] == 'c' && key_word(KeyCode::PageUp)[0] == 'p');
    } else if i == 44 {
        reveal_strlit("Y");
        assert(n == "Y"@);
        assert(low[0] == 'y' && key_word(KeyCode::Char('q'))[0] == 'q');
        assert(low[0] == 'y' && key_word(KeyCode::Char('&'))[0] == '&');
        assert(low[0] == 'y' && key_word(KeyCode::Char('/'))[0] == '/');
        assert(low[0] == 'y' && key_word(KeyCode::Char('?'))[0] == '?');
        assert(low[0] == 'y' && key_word(KeyCode::Char('n'))[0] == 'n');
        assert(low[0] == 'y' && key_word(KeyCode::Char('r'))[0] == 'r');
        assert(low[0] == 'y' && key_word(KeyCode::Char('b'))[0] == 'b');
        assert(low[0] == 'y' && key_word(KeyCode::Char('w'))[0] == 'w');
        assert(low[0] == 'y' && key_word(KeyCode::Char(' '))[0] == ' ');
        assert(low[0] == 'y' && key_word(KeyCode::Char('f'))[0] == 'f');
        assert(low[0] == 'y' && key_word(KeyCode::Char('z'))[0] == 'z');
        assert(low[0] == 'y' && key_word(KeyCode::Char('g'))[0] == 'g');
        assert(low[0] == 'y' && key_word(KeyCode::Char('<'))[0] == '<');
        assert(low[0] == 'y' && key_word(KeyCode::Char('>'))[0] == '>');
        assert(low[0] == 'y' && key_word(KeyCode::Char('p'))[0] == 'p');
        assert(low[0] == 'y' && key_word(KeyCode::Char('%'))[0] == '%');
        assert(low[0] == 'y' && key_word(KeyCode::Char('j'))[0] == 'j');
        assert(low[0] == 'y' && key_word(KeyCode::Char('e'))[0] == 'e');
        assert(low[0] == 'y');
        assert(low =~= key_word(KeyCode::Char('y')));
    } else if i == 45 {
        reveal_strlit("K");
        assert(n == "K"@);
        assert(low[0] == 'k' && key_word(KeyCode::Char('q'))[0] == 'q');
        assert(low[0] == 'k' && key_word(KeyCode::Char('&'))[0] == '&');
        assert(low[0] == 'k' && key_word(KeyCode::Char('/'))[0] == '/');
        assert(low[0] == 'k' && key_word(KeyCode::Char('?'))[0] == '?');
        assert(low[0] == 'k' && key_word(KeyCode::Char('n'))[0] == 'n');
        assert(low[0] == 'k' && key_word(KeyCode::Char('r'))[0] == 'r');
        assert(low[0] == 'k' && key_word(KeyCode::Char('b'))[0] == 'b');
        assert(low[0] == 'k' && key_word(KeyCode::Char('w'))[0] == 'w');
        assert(low[0] == 'k' && key_word(KeyCode::Char(' '))[0] == ' ');
        assert(low[0] == 'k' && key_word(KeyCode::Char('f'))[0] == 'f');
        assert(low[0] == 'k' && key_word(KeyCode::Char('z'))[0] == 'z');
        assert(low[0] == 'k' && key_word(KeyCode::Char('g'))[0] == 'g');
        assert(low[0] == 'k' && key_word(KeyCode::Char('<'))[0] == '<');
        assert(low[0] == 'k' && key_word(KeyCode::Char('>'))[0] == '>');
        assert(low[0] == 'k' && key_word(KeyCode::Char('p'))[0] == 'p');
        assert(low[0] == 'k' && key_word(KeyCode::Char('%'))[0] == '%');
        assert(low[0] == 'k' && key_word(KeyCode::Char('j'))[0] == 'j');
        assert(low[0] == 'k' && key_word(KeyCode::Char('e'))[0] == 'e');
        assert(low[0] == 'k' && key_word(KeyCode::Char('y'))[0] == 'y');
        assert(low[0] == 'k');
        assert(low =~= key_word(KeyCode::Char('k')));
    } else if i == 46 {
        reveal_strlit("Shift+Y");
        assert(n == "Shift+Y"@);
    } else if i == 47 {
        reveal_strlit("Shift+K");
        assert(n == "Shift+K"@);
    } else if i == 48 {
        reveal_strlit("Ctrl+Y");
        assert(n == "Ctrl+Y"@);
        assert(low[0] == 'c' && key_word(KeyCode::PageUp)[0] == 'p');
    } else if i == 49 {
        reveal_strlit("Ctrl+P");
        assert(n == "Ctrl+P"@);
        assert(low[0] == 'c' && key_word(KeyCode::PageUp)[0] == 'p');
    } else if i == 50 {
        reveal_strlit("Ctrl+K");
        assert(n == "Ctrl+K"@);
        assert(low[0] == 'c' && key_word(KeyCode::PageUp)[0] == 'p');
    } else if i == 51 {
        reveal_strlit("D");
        assert(n == "D"@);
        assert(low[0] == 'd' && key_word(KeyCode::Char('q'))[0] == 'q');
        assert(low[0] == 'd' && key_word(KeyCode::Char('&'))[0] == '&');
        assert(low[0] == 'd' && key_word(KeyCode::Char('/'))[0] == '/');
        assert(low[0] == 'd' && key_word(KeyCode::Char('?'))[0] == '?');
        assert(low[0] == 'd' && key_word(KeyCode::Char('n'))[0] == 'n');
        assert(low[0] == 'd' && key_word(KeyCode::Char('r'))[0] == 'r');
        assert(low[0] == 'd' && key_word(KeyCode::Char('b'))[0] == 'b');
        assert(low[0] == 'd' && key_word(KeyCode::Char('w'))[0] == 'w');
        assert(low[0] == 'd' && key_word(KeyCode::Char(' '))[0] == ' ');
        assert(low[0] == 'd' && key_word(KeyCode::Char('f'))[0] == 'f');
        assert(low[0] == 'd' && key_word(KeyCode::Char('z'))[0] == 'z');
        assert(low[0] == 'd' && key_word(KeyCode::Char('g'))[0] == 'g');
        assert(low[0] == 'd' && key_word(KeyCode::Char('<'))[0] == '<');
        assert(low[0] == 'd' && key_word(KeyCode::Char('>'))[0] == '>');
        assert(low[0] == 'd' && key_word(KeyCode::Char('p'))[0] == 'p');
        assert(low[0] == 'd' && key_word(KeyCode::Char('%'))[0] == '%');
        assert(low[0] == 'd' && key_word(KeyCode::Char('j'))[0] == 'j');
        assert(low[0] == 'd' && key_word(KeyCode::Char('e'))[0] == 'e');
        assert(low[0] == 'd' && key_word(KeyCode::Char('y'))[0] == 'y');
        assert(low[0] == 'd' && key_word(KeyCode::Char('k'))[0] == 'k');
        assert(low[0] == 'd');
        assert(low =~= key_word(KeyCode::Char('d')));
    } else if i == 52 {
        reveal_strlit("Ctrl+D");
        assert(n == "Ctrl+D"@);
        assert(low[0] == 'c' && key_word(KeyCode::PageUp)[0] == 'p');
    } else if i == 53 {
        reveal_strlit("U");
        assert(n == "U"@);
        assert(low[0] == 'u' && key_word(KeyCode::Char('q'))[0] == 'q');
        assert(low[0] == 'u' && key_word(KeyCode::Char('&'))[0] == '&');
        assert(low[0] == 'u' && key_word(KeyCode::Char('/'))[0] == '/');
        assert(low[0] == 'u' && key_word(KeyCode::Char('?'))[0] == '?');
        assert(low[0] == 'u' && key_word(KeyCode::Char('n'))[0] == 'n');
        assert(low[0] == 'u' && key_word(KeyCode::Char('r'))[0] == 'r');
        assert(low[0] == 'u' && key_word(KeyCode::Char('b'))[0] == 'b');
        assert(low[0] == 'u' && key_word(KeyCode::Char('w'))[0] == 'w');
        assert(low[0] == 'u' && key_word(KeyCode::Char(' '))[0] == ' ');
        assert(low[0] == 'u' && key_word(KeyCode::Char('f'))[0] == 'f');
        assert(low[0] == 'u' && key_word(KeyCode::Char('z'))[0] == 'z');
        assert(low[0] == 'u' && key_word(KeyCode::Char('g'))[0] == 'g');
        assert(low[0] == 'u' && key_word(KeyCode::Char('<'))[0] == '<');
        assert(low[0] == 'u' && key_word(KeyCode::Char('>'))[0] == '>');
        assert(low[0] == 'u' && key_word(KeyCode::Char('p'))[0] == 'p');
        assert(low[0] == 'u' && key_word(KeyCode::Char('%'))[0] == '%');
        assert(low[0] == 'u' && key_word(KeyCode::Char('j'))[0] == 'j');
        assert(low[0] == 'u' && key_word(KeyCode::Char('e'))[0] == 'e');
        assert(low[0] == 'u' && key_word(KeyCode::Char('y'))[0] == 'y');
        assert(low[0] == 'u' && key_word(KeyCode::Char('k'))[0] == 'k');
        assert(low[0] == 'u' && key_word(KeyCode::Char('d'))[0] == 'd');
        assert(low[0] == 'u');
        assert(low =~= key_word(KeyCode::Char('u')));
    } else if i == 54 {
        reveal_strlit("Ctrl+U");
        assert(n == "Ctrl+U"@);
        assert(low[0] == 'c' && key_word(KeyCode::PageUp)[0] == 'p');
    } else if i == 55 {
        reveal_strlit("Shift+F");
        assert(n == "Shift+F"@);
    } else if i == 56 {
        reveal_strlit("M");
        assert(n == "M"@);
        assert(low[0] == 'm' && key_word(KeyCode::Char('q'))[0] == 'q');
        assert(low[0] == 'm' && key_word(KeyCode::Char('&'))[0] == '&');
        assert(low[0] == 'm' && key_word(KeyCode::Char('/'))[0] == '/');
        assert(low[0] == 'm' && key_word(KeyCode::Char('?'))[0] == '?');
        assert(low[0] == 'm' && key_word(KeyCode::Char('n'))[0] == 'n');
        assert(low[0] == 'm' && key_word(KeyCode::Char('r'))[0] == 'r');
        assert(low[0] == 'm' && key_word(KeyCode::Char('b'))[0] == 'b');
        assert(low[0] == 'm' && key_word(KeyCode::Char('w'))[0] == 'w');
        assert(low[0] == 'm' && key_word(KeyCode::Char(' '))[0] == ' ');
        assert(low[0] == 'm' && key_word(KeyCode::Char('f'))[0] == 'f');
        assert(low[0] == 'm' && key_word(KeyCode::Char('z'))[0] == 'z');
        assert(low[0] == 'm' && key_word(KeyCode::Char('g'))[0] == 'g');
        assert(low[0] == 'm' && key_word(KeyCode::Char('<'))[0] == '<');
        assert(low[0] == 'm' && key_word(KeyCode::Char('>'))[0] == '>');
        assert(low[0] == 'm' && key_word(KeyCode::Char('p'))[0] == 'p');
        assert(low[0] == 'm' && key_word(KeyCode::Char('%'))[0] == '%');
        assert(low[0] == 'm' && key_word(KeyCode::Char('j'))[0] == 'j');
        assert(low[0] == 'm' && key_word(KeyCode::Char('e'))[0] == 'e');
        assert(low[0] == 'm' && key_word(KeyCode::Char('y'))[0] == 'y');
        assert(low[0] == 'm' && key_word(KeyCode::Char('k'))[0] == 'k');
        assert(low[0] == 'm' && key_word(KeyCode::Char('d'))[0] == 'd');
        assert(low[0] == 'm' && key_word(KeyCode::Char('u'))[0] == 'u');
        assert(low[0] == 'm');
        assert(low =~= key_word(KeyCode::Char('m')));
    } else if i == 57 {
        reveal_strlit("Shift+M");
        assert(n == "Shift+M"@);
    } else if i == 58 {
        reveal_strlit("'");
        assert(n == "'"@);
        assert(low[0] == '\'' && key_word(KeyCode::Char('q'))[0] == 'q');
        assert(low[0] == '\'' && key_word(KeyCode::Char('&'))[0] == '&');
        assert(low[0] == '\'' && key_word(KeyCode::Char('/'))[0] == '/');
        assert(low[0] == '\'' && key_word(KeyCode::Char('?'))[0] == '?');
        assert(low[0] == '\'' && key_word(KeyCode::Char('n'))[0] == 'n');
        assert(low[0] == '\'' && key_word(KeyCode::Char('r'))[0] == 'r');
        assert(low[0] == '\'' && key_word(KeyCode::Char('b'))[0] == 'b');
        assert(low[0] == '\'' && key_word(KeyCode::Char('w'))[0] == 'w');
        assert(low[0] == '\'' && key_word(KeyCode::Char(' '))[0] == ' ');
        assert(low[0] == '\'' && key_word(KeyCode::Char('f'))[0] == 'f');
        assert(low[0] == '\'' && key_word(KeyCode::Char('z'))[0] == 'z');
        assert(low[0] == '\'' && key_word(KeyCode::Char('g'))[0] == 'g');
        assert(low[0] == '\'' && key_word(KeyCode::Char('<'))[0] == '<');
        assert(low[0] == '\'' && key_word(KeyCode::Char('>'))[0] == '>');
        assert(low[0] == '\'' && key_word(KeyCode::Char('p'))[0] == 'p');
        assert(low[0] == '\'' && key_word(KeyCode::Char('%'))[0] == '%');
        assert(low[0] == '\'' && key_word(KeyCode::Char('j'))[0] == 'j');
        assert(low[0] == '\'' && key_word(KeyCode::Char('e'))[0] == 'e');
        assert(low[0] == '\'' && key_word(KeyCode::Char('y'))[0] == 'y');
        assert(low[0] == '\'' && key_word(KeyCode::Char('k'))[0] == 'k');
        assert(low[0] == '\'' && key_word(KeyCode::Char('d'))[0] == 'd');
        assert(low[0] == '\'' && key_word(KeyCode::Char('u'))[0] == 'u');
        assert(low[0] == '\'' && key_word(KeyCode::Char('m'))[0] == 'm');
        assert(low[0] == '\'');
        assert(low =~= key_word(KeyCode::Char('\'')));
    } else if i == 59 {
        reveal_strlit("Ctrl+X");
        assert(n == "Ctrl+X"@);
        assert(low[0] == 'c' && key_word(KeyCode::PageUp)[0] == 'p');
    } else if i == 60 {
        reveal_strlit("0");
        assert(n == "0"@);
        assert(low[0] == '0' && key_word(KeyCode::Char('q'))[0] == 'q');
        assert(low[0] == '0' && key_word(KeyCode::Char('&'))[0] == '&');
        assert(low[0] == '0' && key_word(KeyCode::Char('/'))[0] == '/');
        assert(low[0] == '0' && key_word(KeyCode::Char('?'))[0] == '?');
        assert(low[0] == '0' && key_word(KeyCode::Char('n'))[0] == 'n');
        assert(low[0] == '0' && key_word(KeyCode::Char('r'))[0] == 'r');
        assert(low[0] == '0' && key_word(KeyCode::Char('b'))[0] == 'b');
        assert(low[0] == '0' && key_word(KeyCode::Char('w'))[0] == 'w');
        assert(low[0] == '0' && key_word(KeyCode::Char(' '))[0] == ' ');
        assert(low[0] == '0' && key_word(KeyCode::Char('f'))[0] == 'f');
        assert(low[0] == '0' && key_word(KeyCode::Char('z'))[0] == 'z');
        assert(low[0] == '0' && key_word(KeyCode::Char('g'))[0] == 'g');
        assert(low[0] == '0' && key_word(KeyCode::Char('<'))[0] == '<');
        assert(low[0] == '0' && key_word(KeyCode::Char('>'))[0] == '>');
        assert(low[0] == '0' && key_word(KeyCode::Char('p'))[0] == 'p');
        assert(low[0] == '0' && key_word(KeyCode::Char('%'))[0] == '%');
        assert(low[0] == '0' && key_word(KeyCode::Char('j'))[0] == 'j');
        assert(low[0] == '0' && key_word(KeyCode::Char('e'))[0] == 'e');
        assert(low[0] == '0' && key_word(KeyCode::Char('y'))[0] == 'y');
        assert(low[0] == '0' && key_word(KeyCode::Char('k'))[0] == 'k');
        assert(low[0] == '0' && key_word(KeyCode::Char('d'))[0] == 'd');
        assert(low[0] == '0' && key_word(KeyCode::Char('u'))[0] == 'u');
        assert(low[0] == '0' && key_word(KeyCode::Char('m'))[0] == 'm');
        assert(low[0] == '0' && key_word(KeyCode::Char('\''))[0] == '\'');
        assert(low[0] == '0');
        assert(low =~= key_word(KeyCode::Char('0')));
    } else if i == 61 {
        reveal_strlit("1");
        assert(n == "1"@);
        assert(low[0] == '1' && key_word(KeyCode::Char('q'))[0] == 'q');
        assert(low[0] == '1' && key_word(KeyCode::Char('&'))[0] == '&');
        assert(low[0] == '1' && key_word(KeyCode::Char('/'))[0] == '/');
        assert(low[0] == '1' && key_word(KeyCode::Char('?'))[0] == '?');
        assert(low[0] == '1' && key_word(KeyCode::Char('n'))[0] == 'n');
        assert(low[0] == '1' && key_word(KeyCode::Char('r'))[0] == 'r');
        assert(low[0] == '1' && key_word(KeyCode::Char('b'))[0] == 'b');
        assert(low[0] == '1' && key_word(KeyCode::Char('w'))[0] == 'w');
        assert(low[0] == '1' && key_word(KeyCode::Char(' '))[0] == ' ');
        assert(low[0] == '1' && key_word(KeyCode::Char('f'))[0] == 'f');
        assert(low[0] == '1' && key_word(KeyCode::Char('z'))[0] == 'z');
        assert(low[0] == '1' && key_word(KeyCode::Char('g'))[0] == 'g');
        assert(low[0] == '1' && key_word(KeyCode::Char('<'))[0] == '<');
        assert(low[0] == '1' && key_word(KeyCode::Char('>'))[0] == '>');
        assert(low[0] == '1' && key_word(KeyCode::Char('p'))[0] == 'p');
        assert(low[0] == '1' && key_word(KeyCode::Char('%'))[0] == '%');
        assert(low[0] == '1' && key_word(KeyCode::Char('j'))[0] == 'j');
        assert(low[0] == '1' && key_word(KeyCode::Char('e'))[0] == 'e');
        assert(low[0] == '1' && key_word(KeyCode::Char('y'))[0] == 'y');
        assert(low[0] == '1' && key_word(KeyCode::Char('k'))[0] == 'k');
        assert(low[0] == '1' && key_word(KeyCode::Char('d'))[0] == 'd');
        assert(low[0] == '1' && key_word(KeyCode::Char('u'))[0] == 'u');
        assert(low[0] == '1' && key_word(KeyCode::Char('m'))[0] == 'm');
        assert(low[0] == '1' && key_word(KeyCode::Char('\''))[0] == '\'');
        assert(low[0] == '1' && key_word(KeyCode::Char('0'))[0] == '0');
        assert(low[0] == '1');
        assert(low =~= key_word(KeyCode::Char('1')));
    } else if i == 62 {
        reveal_strlit("2");
        assert(n == "2"@);
        assert(low[0] == '2' && key_word(KeyCode::Char('q'))[0] == 'q');
        assert(low[0] == '2' && key_word(KeyCode::Char('&'))[0] == '&');
        assert(low[0] == '2' && key_word(KeyCode::Char('/'))[0] == '/');
        assert(low[0] == '2' && key_word(KeyCode::Char('?'))[0] == '?');
        assert(low[0] == '2' && key_word(KeyCode::Char('n'))[0] == 'n');
        assert(low[0] == '2' && key_word(KeyCode::Char('r'))[0] == 'r');
        assert(low[0] == '2' && key_word(KeyCode::Char('b'))[0] == 'b');
        assert(low[0] == '2' && key_word(KeyCode::Char('w'))[0] == 'w');
        assert(low[0] == '2' && key_word(KeyCode::Char(' '))[0] == ' ');
        assert(low[0] == '2' && key_word(KeyCode::Char('f'))[0] == 'f');
        assert(low[0] == '2' && key_word(KeyCode::Char('z'))[0] == 'z');
        assert(low[0] == '2' && key_word(KeyCode::Char('g'))[0] == 'g');
        assert(low[0] == '2' && key_word(KeyCode::Char('<'))[0] == '<');
        assert(low[0] == '2' && key_word(KeyCode::Char('>'))[0] == '>');
        assert(low[0] == '2' && key_word(KeyCode::Char('p'))[0] == 'p');
        assert(low[0] == '2' && key_word(KeyCode::Char('%'))[0] == '%');
        assert(low[0] == '2' && key_word(KeyCode::Char('j'))[0] == 'j');
        assert(low[0] == '2' && key_word(KeyCode::Char('e'))[0] == 'e');
        assert(low[0] == '2' && key_word(KeyCode::Char('y'))[0] == 'y');
        assert(low[0] == '2' && key_word(KeyCode::Char('k'))[0] == 'k');
        assert(low[0] == '2' && key_word(KeyCode::Char('d'))[0] == 'd');
        assert(low[0] == '2' && key_word(KeyCode::Char('u'))[0] == 'u');
        assert(low[0] == '2' && key_word(KeyCode::Char('m'))[0] == 'm');
        assert(low[0] == '2' && key_word(KeyCode::Char('\''))[0] == '\'');
        assert(low[0] == '2' && key_word(KeyCode::Char('0'))[0] == '0');
        assert(low[0] == '2' && key_word(KeyCode::Char('1'))[0] == '1');
        assert(low[0] == '2');
        assert(low =~= key_word(KeyCode::Char('2')));
    } else if i == 63 {
        reveal_strlit("3");
        assert(n == "3"@);
        assert(low[0] == '3' && key_word(KeyCode::Char('q'))[0] == 'q');
        assert(low[0] == '3' && key_word(KeyCode::Char('&'))[0] == '&');
        assert(low[0] == '3' && key_word(KeyCode::Char('/'))[0] == '/');
        assert(low[0] == '3' && key_word(KeyCode::Char('?'))[0] == '?');
        assert(low[0] == '3' && key_word(KeyCode::Char('n'))[0] == 'n');
        assert(low[0] == '3' && key_word(KeyCode::Char('r'))[0] == 'r');
        assert(low[0] == '3' && key_word(KeyCode::Char('b'))[0] == 'b');
        assert(low[0] == '3' && key_word(KeyCode::Char('w'))[0] == 'w');
        assert(low[0] == '3' && key_word(KeyCode::Char(' '))[0] == ' ');
        assert(low[0] == '3' && key_word(KeyCode::Char('f'))[0] == 'f');
        assert(low[0] == '3' && key_word(KeyCode::Char('z'))[0] == 'z');
        assert(low[0] == '3' && key_word(KeyCode::Char('g'))[0] == 'g');
        assert(low[0] == '3' && key_word(KeyCode::Char('<'))[0] == '<');
        assert(low[0] == '3' && key_word(KeyCode::Char('>'))[0] == '>');
        assert(low[0] == '3' && key_word(KeyCode::Char('p'))[0] == 'p');
        assert(low[0] == '3' && key_word(KeyCode::Char('%'))[0] == '%');
        assert(low[0] == '3' && key_word(KeyCode::Char('j'))[0] == 'j');
        assert(low[0] == '3' && key_word(KeyCode::Char('e'))[0] == 'e');
        assert(low[0] == '3' && key_word(KeyCode::Char('y'))[0] == 'y');
        assert(low[0] == '3' && key_word(KeyCode::Char('k'))[0] == 'k');
        assert(low[0] == '3' && key_word(KeyCode::Char('d'))[0] == 'd');
        assert(low[0] == '3' && key_word(KeyCode::Char('u'))[0] == 'u');
        assert(low[0] == '3' && key_word(KeyCode::Char('m'))[0] == 'm');
        assert(low[0] == '3' && key_word(KeyCode::Char('\''))[0] == '\'');
        assert(low[0] == '3' && key_word(KeyCode::Char('0'))[0] == '0');
        assert(low[0] == '3' && key_word(KeyCode::Char('1'))[0] == '1');
        assert(low[0] == '3' && key_word(KeyCode::Char('2'))[0] == '2');
        assert(low[0] == '3');
        assert(low =~= key_word(KeyCode::Char('3')));
    } else if i == 64 {
        reveal_strlit("4");
        assert(n == "4"@);
        assert(low[0] == '4' && key_word(KeyCode::Char('q'))[0] == 'q');
        assert(low[0] == '4' && key_word(KeyCode::Char('&'))[0] == '&');
        assert(low[0] == '4' && key_word(KeyCode::Char('/'))[0] == '/');
        assert(low[0] == '4' && key_word(KeyCode::Char('?'))[0] == '?');
        assert(low[0] == '4' && key_word(KeyCode::Char('n'))[0] == 'n');
        assert(low[0] == '4' && key_word(KeyCode::Char('r'))[0] == 'r');
        assert(low[0] == '4' && key_word(KeyCode::Char('b'))[0] == 'b');
        assert(low[0] == '4' && key_word(KeyCode::Char('w'))[0] == 'w');
        assert(low[0] == '4' && key_word(KeyCode::Char(' '))[0] == ' ');
        assert(low[0] == '4' && key_word(KeyCode::Char('f'))[0] == 'f');
        assert(low[0] == '4' && key_word(KeyCode::Char('z'))[0] == 'z');
        assert(low[0] == '4' && key_word(KeyCode::Char('g'))[0] == 'g');
        assert(low[0] == '4' && key_word(KeyCode::Char('<'))[0] == '<');
        assert(low[0] == '4' && key_word(KeyCode::Char('>'))[0] == '>');
        assert(low[0] == '4' && key_word(KeyCode::Char('p'))[0] == 'p');
        assert(low[0] == '4' && key_word(KeyCode::Char('%'))[0] == '%');
        assert(low[0] == '4' && key_word(KeyCode::Char('j'))[0] == 'j');
        assert(low[0] == '4' && key_word(KeyCode::Char('e'))[0] == 'e');
        assert(low[0] == '4' && key_word(KeyCode::Char('y'))[0] == 'y');
        assert(low[0] == '4' && key_word(KeyCode::Char('k'))[0] == 'k');
        assert(low[0] == '4' && key_word(KeyCode::Char('d'))[0] == 'd');
        assert(low[0] == '4' && key_word(KeyCode::Char('u'))[0] == 'u');
        assert(low[0] == '4' && key_word(KeyCode::Char('m'))[0] == 'm');
        assert(low[0] == '4' && key_word(KeyCode::Char('\''))[0] == '\'');
        assert(low[0] == '4' && key_word(KeyCode::Char('0'))[0] == '0');
        assert(low[0] == '4' && key_word(KeyCode::Char('1'))[0] == '1');
        assert(low[0] == '4' && key_word(KeyCode::Char('2'))[0] == '2');
        assert(low[0] == '4' && key_word(KeyCode::Char('3'))[0] == '3');
        assert(low[0] == '4');
        assert(low =~= key_word(KeyCode::Char('4')));
    } else if i == 65 {
        reveal_strlit("5");
        assert(n == "5"@);
        assert(low[0] == '5' && key_word(KeyCode::Char('q'))[0] == 'q');
        assert(low[0] == '5' && key_word(KeyCode::Char('&'))[0] == '&');
        assert(low[0] == '5' && key_word(KeyCode::Char('/'))[0] == '/');
        assert(low[0] == '5' && key_word(KeyCode::Char('?'))[0] == '?');
        assert(low[0] == '5' && key_word(KeyCode::Char('n'))[0] == 'n');
        assert(low[0] == '5' && key_word(KeyCode::Char('r'))[0] == 'r');
        assert(low[0] == '5' && key_word(KeyCode::Char('b'))[0] == 'b');
        assert(low[0] == '5' && key_word(KeyCode::Char('w'))[0] == 'w');
        assert(low[0] == '5' && key_word(KeyCode::Char(' '))[0] == ' ');
        assert(low[0] == '5' && key_word(KeyCode::Char('f'))[0] == 'f');
        assert(low[0] == '5' && key_word(KeyCode::Char('z'))[0] == 'z');
        assert(low[0] == '5' && key_word(KeyCode::Char('g'))[0] == 'g');
        assert(low[0] == '5' && key_word(KeyCode::Char('<'))[0] == '<');
        assert(low[0] == '5' && key_word(KeyCode::Char('>'))[0] == '>');
        assert(low[0] == '5' && key_word(KeyCode::Char('p'))[0] == 'p');
        assert(low[0] == '5' && key_word(KeyCode::Char('%'))[0] == '%');
        assert(low[0] == '5' && key_word(KeyCode::Char('j'))[0] == 'j');
        assert(low[0] == '5' && key_word(KeyCode::Char('e'))[0] == 'e');
        assert(low[0] == '5' && key_word(KeyCode::Char('y'))[0] == 'y');
        assert(low[0] == '5' && key_word(KeyCode::Char('k'))[0] == 'k');
        assert(low[0] == '5' && key_word(KeyCode::Char('d'))[0] == 'd');
        assert(low[0] == '5' && key_word(KeyCode::Char('u'))[0] == 'u');
        assert(low[0] == '5' && key_word(KeyCode::Char('m'))[0] == 'm');
        assert(low[0] == '5' && key_word(KeyCode::Char('\''))[0] == '\'');
        assert(low[0] == '5' && key_word(KeyCode::Char('0'))[0] == '0');
        assert(low[0] == '5' && key_word(KeyCode::Char('1'))[0] == '1');
        assert(low[0] == '5' && key_word(KeyCode::Char('2'))[0] == '2');
        assert(low[0] == '5' && key_word(KeyCode::Char('3'))[0] == '3');
        assert(low[0] == '5' && key_word(KeyCode::Char('4'))[0] == '4');
        assert(low[0] == '5');
        assert(low =~= key_word(KeyCode::Char('5')));
    } else if i == 66 {
        reveal_strlit("6");
        assert(n == "6"@);
        assert(low[0] == '6' && key_word(KeyCode::Char('q'))[0] == 'q');
        assert(low[0] == '6' && key_word(KeyCode::Char('&'))[0] == '&');
        assert(low[0] == '6' && key_word(KeyCode::Char('/'))[0] == '/');
        assert(low[0] == '6' && key_word(KeyCode::Char('?'))[0] == '?');
        assert(low[0] == '6' && key_word(KeyCode::Char('n'))[0] == 'n');
        assert(low[0] == '6' && key_word(KeyCode::Char('r'))[0] == 'r');
        assert(low[0] == '6' && key_word(KeyCode::Char('b'))[0] == 'b');
        assert(low[0] == '6' && key_word(KeyCode::Char('w'))[0] == 'w');
        assert(low[0] == '6' && key_word(KeyCode::Char(' '))[0] == ' ');
        assert(low[0] == '6' && key_word(KeyCode::Char('f'))[0] == 'f');
        assert(low[0] == '6' && key_word(KeyCode::Char('z'))[0] == 'z');
        assert(low[0] == '6' && key_word(KeyCode::Char('g'))[0] == 'g');
        assert(low[0] == '6' && key_word(KeyCode::Char('<'))[0] == '<');
        assert(low[0] == '6' && key_word(KeyCode::Char('>'))[0] == '>');
        assert(low[0] == '6' && key_word(KeyCode::Char('p'))[0] == 'p');
        assert(low[0] == '6' && key_word(KeyCode::Char('%'))[0] == '%');
        assert(low[0] == '6' && key_word(KeyCode::Char('j'))[0] == 'j');
        assert(low[0] == '6' && key_word(KeyCode::Char('e'))[0] == 'e');
        assert(low[0] == '6' && key_word(KeyCode::Char('y'))[0] == 'y');
        assert(low[0] == '6' && key_word(KeyCode::Char('k'))[0] == 'k');
        assert(low[0] == '6' && key_word(KeyCode::Char('d'))[0] == 'd');
        assert(low[0] == '6' && key_word(KeyCode::Char('u'))[0] == 'u');
        assert(low[0] == '6' && key_word(KeyCode::Char('m'))[0] == 'm');
        assert(low[0] == '6' && key_word(KeyCode::Char('\''))[0] == '\'');
        assert(low[0] == '6' && key_word(KeyCode::Char('0'))[0] == '0');
        assert(low[0] == '6' && key_word(KeyCode::Char('1'))[0] == '1');
        assert(low[0] == '6' && key_word(KeyCode::Char('2'))[0] == '2');
        assert(low[0] == '6' && key_word(KeyCode::Char('3'))[0] == '3');
        assert(low[0] == '6' && key_word(KeyCode::Char('4'))[0] == '4');
        assert(low[0] == '6' && key_word(KeyCode::Char('5'))[0] == '5');
        assert(low[0] == '6');
        assert(low =~= key_word(KeyCode::Char('6')));
    } else if i == 67 {
        reveal_strlit("7");
        assert(n == "7"@);
        assert(low[0] == '7' && key_word(KeyCode::Char('q'))[0] == 'q');
        assert(low[0] == '7' && key_word(KeyCode::Char('&'))[0] == '&');
        assert(low[0] == '7' && key_word(KeyCode::Char('/'))[0] == '/');
        assert(low[0] == '7' && key_word(KeyCode::Char('?'))[0] == '?');
        assert(low[0] == '7' && key_word(KeyCode::Char('n'))[0] == 'n');
        assert(low[0] == '7' && key_word(KeyCode::Char('r'))[0] == 'r');
        assert(low[0] == '7' && key_word(KeyCode::Char('b'))[0] == 'b');
        assert(low[0] == '7' && key_word(KeyCode::Char('w'))[0] == 'w');
        assert(low[0] == '7' && key_word(KeyCode::Char(' '))[0] == ' ');
        assert(low[0] == '7' && key_word(KeyCode::Char('f'))[0] == 'f');
        assert(low[0] == '7' && key_word(KeyCode::Char('z'))[0] == 'z');
        assert(low[0] == '7' && key_word(KeyCode::Char('g'))[0] == 'g');
        assert(low[0] == '7' && key_word(KeyCode::Char('<'))[0] == '<');
        assert(low[0] == '7' && key_word(KeyCode::Char('>'))[0] == '>');
        assert(low[0] == '7' && key_word(KeyCode::Char('p'))[0] == 'p');
        assert(low[0] == '7' && key_word(KeyCode::Char('%'))[0] == '%');
        assert(low[0] == '7' && key_word(KeyCode::Char('j'))[0] == 'j');
        assert(low[0] == '7' && key_word(KeyCode::Char('e'))[0] == 'e');
        assert(low[0] == '7' && key_word(KeyCode::Char('y'))[0] == 'y');
        assert(low[0] == '7' && key_word(KeyCode::Char('k'))[0] == 'k');
        assert(low[0] == '7' && key_word(KeyCode::Char('d'))[0] == 'd');
        assert(low[0] == '7' && key_word(KeyCode::Char('u'))[0] == 'u');
        assert(low[0] == '7' && key_word(KeyCode::Char('m'))[0] == 'm');
        assert(low[0] == '7' && key_word(KeyCode::Char('\''))[0] == '\'');
        assert(low[0] == '7' && key_word(KeyCode::Char('0'))[0] == '0');
        assert(low[0] == '7' && key_word(KeyCode::Char('1'))[0] == '1');
        assert(low[0] == '7' && key_word(KeyCode::Char('2'))[0] == '2');
        assert(low[0] == '7' && key_word(KeyCode::Char('3'))[0] == '3');
        assert(low[0] == '7' && key_word(KeyCode::Char('4'))[0] == '4');
        assert(low[0] == '7' && key_word(KeyCode::Char('5'))[0] == '5');
        assert(low[0] == '7' && key_word(KeyCode::Char('6'))[0] == '6');
        assert(low[0] == '7');
        assert(low =~= key_word(KeyCode::Char('7')));
    } else if i == 68 {
        reveal_strlit("8");
        assert(n == "8"@);
        assert(low[0] == '8' && key_word(KeyCode::Char('q'))[0] == 'q');
        assert(low[0] == '8' && key_word(KeyCode::Char('&'))[0] == '&');
        assert(low[0] == '8' && key_word(KeyCode::Char('/'))[0] == '/');
        assert(low[0] == '8' && key_word(KeyCode::Char('?'))[0] == '?');
        assert(low[0] == '8' && key_word(KeyCode::Char('n'))[0] == 'n');
        assert(low[0] == '8' && key_word(KeyCode::Char('r'))[0] == 'r');
        assert(low[0] == '8' && key_word(KeyCode::Char('b'))[0] == 'b');
        assert(low[0] == '8' && key_word(KeyCode::Char('w'))[0] == 'w');
        assert(low[0] == '8' && key_word(KeyCode::Char(' '))[0] == ' ');
        assert(low[0] == '8' && key_word(KeyCode::Char('f'))[0] == 'f');
        assert(low[0] == '8' && key_word(KeyCode::Char('z'))[0] == 'z');
        assert(low[0] == '8' && key_word(KeyCode::Char('g'))[0] == 'g');
        assert(low[0] == '8' && key_word(KeyCode::Char('<'))[0] == '<');
        assert(low[0] == '8' && key_word(KeyCode::Char('>'))[0] == '>');
        assert(low[0] == '8' && key_word(KeyCode::Char('p'))[0] == 'p');
        assert(low[0] == '8' && key_word(KeyCode::Char('%'))[0] == '%');
        assert(low[0] == '8' && key_word(KeyCode::Char('j'))[0] == 'j');
        assert(low[0] == '8' && key_word(KeyCode::Char('e'))[0] == 'e');
        assert(low[0] == '8' && key_word(KeyCode::Char('y'))[0] == 'y');
        assert(low[0] == '8' && key_word(KeyCode::Char('k'))[0] == 'k');
        assert(low[0] == '8' && key_word(KeyCode::Char('d'))[0] == 'd');
        assert(low[0] == '8' && key_word(KeyCode::Char('u'))[0] == 'u');
        assert(low[0] == '8' && key_word(KeyCode::Char('m'))[0] == 'm');
        assert(low[0] == '8' && key_word(KeyCode::Char('\''))[0] == '\'');
        assert(low[0] == '8' && key_word(KeyCode::Char('0'))[0] == '0');
        assert(low[0] == '8' && key_word(KeyCode::Char('1'))[0] == '1');
        assert(low[0] == '8' && key_word(KeyCode::Char('2'))[0] == '2');
        assert(low[0] == '8' && key_word(KeyCode::Char('3'))[0] == '3');
        assert(low[0] == '8' && key_word(KeyCode::Char('4'))[0] == '4');
        assert(low[0] == '8' && key_word(KeyCode::Char('5'))[0] == '5');
        assert(low[0] == '8' && key_word(KeyCode::Char('6'))[0] == '6');
        assert(low[0] == '8' && key_word(KeyCode::Char('7'))[0] == '7');
        assert(low[0] == '8');
        assert(low =~= key_word(KeyCode::Char('8')));
    } else if i == 69 {
        reveal_strlit("9");
        assert(n == "9"@);
        assert(low[0] == '9' && key_word(KeyCode::Char('q'))[0] == 'q');
        assert(low[0] == '9' && key_word(KeyCode::Char('&'))[0] == '&');
        assert(low[0] == '9' && key_word(KeyCode::Char('/'))[0] == '/');
        assert(low[0] == '9' && key_word(KeyCode::Char('?'))[0] == '?');
        assert(low[0] == '9' && key_word(KeyCode::Char('n'))[0] == 'n');
        assert(low[0] == '9' && key_word(KeyCode::Char('r'))[0] == 'r');
        assert(low[0] == '9' && key_word(KeyCode::Char('b'))[0] == 'b');
        assert(low[0] == '9' && key_word(KeyCode::Char('w'))[0] == 'w');
        assert(low[0] == '9' && key_word(KeyCode::Char(' '))[0] == ' ');
        assert(low[0] == '9' && key_word(KeyCode::Char('f'))[0] == 'f');
        assert(low[0] == '9' && key_word(KeyCode::Char('z'))[0] == 'z');
        assert(low[0] == '9' && key_word(KeyCode::Char('g'))[0] == 'g');
        assert(low[0] == '9' && key_word(KeyCode::Char('<'))[0] == '<');
        assert(low[0] == '9' && key_word(KeyCode::Char('>'))[0] == '>');
        assert(low[0] == '9' && key_word(KeyCode::Char('p'))[0] == 'p');
        assert(low[0] == '9' && key_word(KeyCode::Char('%'))[0] == '%');
        assert(low[0] == '9' && key_word(KeyCode::Char('j'))[0] == 'j');
        assert(low[0] == '9' && key_word(KeyCode::Char('e'))[0] == 'e');
        assert(low[0] == '9' && key_word(KeyCode::Char('y'))[0] == 'y');
        assert(low[0] == '9' && key_word(KeyCode::Char('k'))[0] == 'k');
        assert(low[0] == '9' && key_word(KeyCode::Char('d'))[0] == 'd');
        assert(low[0] == '9' && key_word(KeyCode::Char('u'))[0] == 'u');
        assert(low[0] == '9' && key_word(KeyCode::Char('m'))[0] == 'm');
        assert(low[0] == '9' && key_word(KeyCode::Char('\''))[0] == '\'');
        assert(low[0] == '9' && key_word(KeyCode::Char('0'))[0] == '0');
        assert(low[0] == '9' && key_word(KeyCode::Char('1'))[0] == '1');
        assert(low[0] == '9' && key_word(KeyCode::Char('2'))[0] == '2');
        assert(low[0] == '9' && key_word(KeyCode::Char('3'))[0] == '3');
        assert(low[0] == '9' && key_word(KeyCode::Char('4'))[0] == '4');
        assert(low[0] == '9' && key_word(KeyCode::Char('5'))[0] == '5');
        assert(low[0] == '9' && key_word(KeyCode::Char('6'))[0] == '6');
        assert(low[0] == '9' && key_word(KeyCode::Char('7'))[0] == '7');
        assert(low[0] == '9' && key_word(KeyCode::Char('8'))[0] == '8');
        assert(low[0] == '9');
        assert(low =~= key_word(KeyCode::Char('9')));
    } else if i == 70 {
        reveal_strlit(".");
        assert(n == "."@);
        assert(low[0] == '.' && key_word(KeyCode::Char('q'))[0] == 'q');
        assert(low[0] == '.' && key_word(KeyCode::Char('&'))[0] == '&');
        assert(low[0] == '.' && key_word(KeyCode::Char('/'))[0] == '/');
        assert(low[0] == '.' && key_word(KeyCode::Char('?'))[0] == '?');
        assert(low[0] == '.' && key_word(KeyCode::Char('n'))[0] == 'n');
        assert(low[0] == '.' && key_word(KeyCode::Char('r'))[0] == 'r');
        assert(low[0] == '.' && key_word(KeyCode::Char('b'))[0] == 'b');
        assert(low[0] == '.' && key_word(KeyCode::Char('w'))[0] == 'w');
        assert(low[0] == '.' && key_word(KeyCode::Char(' '))[0] == ' ');
        assert(low[0] == '.' && key_word(KeyCode::Char('f'))[0] == 'f');
        assert(low[0] == '.' && key_word(KeyCode::Char('z'))[0] == 'z');
        assert(low[0] == '.' && key_word(KeyCode::Char('g'))[0] == 'g');
        assert(low[0] == '.' && key_word(KeyCode::Char('<'))[0] == '<');
        assert(low[0] == '.' && key_word(KeyCode::Char('>'))[0] == '>');
        assert(low[0] == '.' && key_word(KeyCode::Char('p'))[0] == 'p');
        assert(low[0] == '.' && key_word(KeyCode::Char('%'))[0] == '%');
        assert(low[0] == '.' && key_word(KeyCode::Char('j'))[0] == 'j');
        assert(low[0] == '.' && key_word(KeyCode::Char('e'))[0] == 'e');
        assert(low[0] == '.' && key_word(KeyCode::Char('y'))[0] == 'y');
        assert(low[0] == '.' && key_word(KeyCode::Char('k'))[0] == 'k');
        assert(low[0] == '.' && key_word(KeyCode::Char('d'))[0] == 'd');
        assert(low[0] == '.' && key_word(KeyCode::Char('u'))[0] == 'u');
        assert(low[0] == '.' && key_word(KeyCode::Char('m'))[0] == 'm');
        assert(low[0] == '.' && key_word(KeyCode::Char('\''))[0] == '\'');
        assert(low[0] == '.' && key_word(KeyCode::Char('0'))[0] == '0');
        assert(low[0] == '.' && key_word(KeyCode::Char('1'))[0] == '1');
        assert(low[0] == '.' && key_word(KeyCode::Char('2'))[0] == '2');
        assert(low[0] == '.' && key_word(KeyCode::Char('3'))[0] == '3');
        assert(low[0] == '.' && key_word(KeyCode::Char('4'))[0] == '4');
        assert(low[0] == '.' && key_word(KeyCode::Char('5'))[0] == '5');
        assert(low[0] == '.' && key_word(KeyCode::Char('6'))[0] == '6');
        assert(low[0] == '.' && key_word(KeyCode::Char('7'))[0] == '7');
        assert(low[0] == '.' && key_word(KeyCode::Char('8'))[0] == '8');
        assert(low[0] == '.' && key_word(KeyCode::Char('9'))[0] == '9');
        assert(low[0] == '.');
        assert(low =~= key_word(KeyCode::Char('.')));
    } else if i == 71 {
        reveal_strlit("MouseLeft");
        assert(n == "MouseLeft"@);
        assert(low[0] == 'm');
        assert(low[1] == 'o');
        assert(low[2] == 'u');
        assert(low[3] == 's');
        assert(low[4] == 'e');
        assert(low[5] == 'l');
        assert(low[6] == 'e');
        assert(low[7] == 'f');
        assert(low[8] == 't');
        assert(low =~= mouse_word(MouseAction::Down(MouseButton::Left)));
    } else if i == 72 {
        reveal_strlit("MouseLeftDrag");
        assert(n == "MouseLeftDrag"@);
        assert(low[0] == 'm');
        assert(low[1] == 'o');
        assert(low[2] == 'u');
        assert(low[3] == 's');
        assert(low[4] == 'e');
        assert(low[5] == 'l');
        assert(low[6] == 'e');
        assert(low[7] == 'f');
        assert(low[8] == 't');
        assert(low[9] == 'd');
        assert(low[10] == 'r');
        assert(low[11] == 'a');
        assert(low[12] == 'g');
        assert(low =~= mouse_word(MouseAction::Drag(MouseButton::Left)));
    } else if i == 73 {
        reveal_strlit("MouseWheelUp");
        assert(n == "MouseWheelUp"@);
        assert(low[0] == 'm');
        assert(low[1] == 'o');
        assert(low[2] == 'u');
        assert(low[3] == 's');
        assert(low[4] == 'e');
        assert(low[5] == 'w');
        assert(low[6] == 'h');
        assert(low[7] == 'e');
        assert(low[8] == 'e');
        assert(low[9] == 'l');
        assert(low[10] == 'u');
        assert(low[11] == 'p');
        assert(low =~= mouse_word(MouseAction::ScrollUp));
    } else if i == 74 {
        reveal_strlit("MouseWheelDown");
        assert(n == "MouseWheelDown"@);
        assert(low[0] == 'm');
        assert(low[1] == 'o');
        assert(low[2] == 'u');
        assert(low[3] == 's');
        assert(low[4] == 'e');
        assert(low[5] == 'w');
        assert(low[6] == 'h');
        assert(low[7] == 'e');
        assert(low[8] == 'e');
        assert(low[9] == 'l');
        assert(low[10] == 'd');
        assert(low[11] == 'o');
        assert(low[12] == 'w');
        assert(low[13] == 'n');
        assert(low =~= mouse_word(MouseAction::ScrollDown));
    }
}

/// The keys that the table names alone, each with no modifier, give their entries' commands
/// in the bindings `m` made from the first `i` entries, for those entries among them.
pub open spec fn alone_keys_bound(m: Seq<KeyBinding>, i: int) -> bool {
    &&& alone_keys_bound_1(m, i)
    &&& alone_keys_bound_2(m, i)
    &&& alone_keys_bound_3(m, i)
}

/// Part 1 of `alone_keys_bound`.
pub open spec fn alone_keys_bound_1(m: Seq<KeyBinding>, i: int) -> bool {
    &&& i > 2 ==> lookup_key(m, KeyCode::Char('q'), 0, KeyKind::Press, 0) == Some(UserCommand::Quit)
    &&& i > 3 ==> lookup_key(m, KeyCode::Esc, 0, KeyKind::Press, 0) == Some(UserCommand::Quit)
    &&& i > 4 ==> lookup_key(m, KeyCode::Up, 0, KeyKind::Press, 0) == Some(UserCommand::ScrollUp)
    &&& i > 5 ==> lookup_key(m, KeyCode::Down, 0, KeyKind::Press, 0) == Some(UserCommand::ScrollDown)
    &&& i > 8 ==> lookup_key(m, KeyCode::Left, 0, KeyKind::Press, 0) == Some(UserCommand::PanLeft)
    &&& i > 9 ==> lookup_key(m, KeyCode::Right, 0, KeyKind::Press, 0) == Some(UserCommand::PanRight)
    &&& i > 10 ==> lookup_key(m, KeyCode::PageUp, 0, KeyKind::Press, 0) == Some(UserCommand::PageUp)
    &&& i > 11 ==> lookup_key(m, KeyCode::PageDown, 0, KeyKind::Press, 0) == Some(UserCommand::PageDown)
    &&& i > 12 ==> lookup_key(m, KeyCode::Home, 0, KeyKind::Press, 0) == Some(UserCommand::ScrollToTop)
    &&& i > 13 ==> lookup_key(m, KeyCode::End, 0, KeyKind::Press, 0) == Some(UserCommand::ScrollToBottom)
    &&& i > 14 ==> lookup_key(m, KeyCode::Char('&'), 0, KeyKind::Press, 0) == Some(UserCommand::FilterPrompt)
    &&& i > 15 ==> lookup_key(m, KeyCode::Char('/'), 0, KeyKind::Press, 0) == Some(UserCommand::ForwardSearchPrompt)
    &&& i > 16 ==> lookup_key(m, KeyCode::Char('?'), 0, KeyKind::Press, 0) == Some(UserCommand::BackwardSearchPrompt)
    &&& i > 17 ==> lookup_key(m, KeyCode::Char('n'), 0, KeyKind::Press, 0) == Some(UserCommand::SearchNext)
    &&& i > 19 ==> lookup_key(m, KeyCode::Char('r'), 0, KeyKind::Press, 0) == Some(UserCommand::RefreshDisplay)
}

/// Part 2 of `alone_keys_bound`.
pub open spec fn alone_keys_bound_2(m: Seq<KeyBinding>, i: int) -> bool {
    &&& i > 23 ==> lookup_key(m, KeyCode::Char('b'), 0, KeyKind::Press, 0) == Some(UserCommand::PageUp)
    &&& i > 25 ==> lookup_key(m, KeyCode::Char('w'), 0, KeyKind::Press, 0) == Some(UserCommand::PageUpSticky)
    &&& i > 26 ==> lookup_key(m, KeyCode::Char(' '), 0, KeyKind::Press, 0) == Some(UserCommand::PageDown)
    &&& i > 29 ==> lookup_key(m, KeyCode::Char('f'), 0, KeyKind::Press, 0) == Some(UserCommand::PageDown)
    &&& i > 30 ==> lookup_key(m, KeyCode::Char('z'), 0, KeyKind::Press, 0) == Some(UserCommand::PageDownSticky)
    &&& i > 31 ==> lookup_key(m, KeyCode::Char('g'), 0, KeyKind::Press, 0) == Some(UserCommand::SeekStartLine)
    &&& i > 32 ==> lookup_key(m, KeyCode::Char('<'), 0, KeyKind::Press, 0) == Some(UserCommand::SeekStartLine)
    &&& i > 34 ==> lookup_key(m, KeyCode::Char('>'), 0, KeyKind::Press, 0) == Some(UserCommand::SeekEndLine)
    &&& i > 35 ==> lookup_key(m, KeyCode::Char('p'), 0, KeyKind::Press, 0) == Some(UserCommand::GotoPercent)
    &&& i > 36 ==> lookup_key(m, KeyCode::Char('%'), 0, KeyKind::Press, 0) == Some(UserCommand::GotoPercent)
    &&& i > 38 ==> lookup_key(m, KeyCode::Enter, 0, KeyKind::Press, 0) == Some(UserCommand::ScrollDown)
    &&& i > 39 ==> lookup_key(m, KeyCode::Char('j'), 0, KeyKind::Press, 0) == Some(UserCommand::ScrollDown)
    &&& i > 42 ==> lookup_key(m, KeyCode::Char('e'), 0, KeyKind::Press, 0) == Some(UserCommand::ScrollDown)
    &&& i > 44 ==> lookup_key(m, KeyCode::Char('y'), 0, KeyKind::Press, 0) == Some(UserCommand::ScrollUp)
    &&& i > 45 ==> lookup_key(m, KeyCode::Char('k'), 0, KeyKind::Press, 0) == Some(UserCommand::ScrollUp)
}

/// Part 3 of `alone_keys_bound`.
pub open spec fn alone_keys_bound_3(m: Seq<KeyBinding>, i: int) -> bool {
    &&& i > 51 ==> lookup_key(m, KeyCode::Char('d'), 0, KeyKind::Press, 0) == Some(UserCommand::HalfPageDown)
    &&& i > 53 ==> lookup_key(m, KeyCode::Char('u'), 0, KeyKind::Press, 0) == Some(UserCommand::HalfPageUp)
    &&& i > 56 ==> lookup_key(m, KeyCode::Char('m'), 0, KeyKind::Press, 0) == Some(UserCommand::SetBookmarkTop)
    &&& i > 58 ==> lookup_key(m, KeyCode::Char('\''), 0, KeyKind::Press, 0) == Some(UserCommand::GotoBookmark)
    &&& i > 60 ==> lookup_key(m, KeyCode::Char('0'), 0, KeyKind::Press, 0) == Some(UserCommand::CollectDigits(0))
    &&& i > 61 ==> lookup_key(m, KeyCode::Char('1'), 0, KeyKind::Press, 0) == Some(UserCommand::CollectDigits(1))
    &&& i > 62 ==> lookup_key(m, KeyCode::Char('2'), 0, KeyKind::Press, 0) == Some(UserCommand::CollectDigits(2))
    &&& i > 63 ==> lookup_key(m, KeyCode::Char('3'), 0, KeyKind::Press, 0) == Some(UserCommand::CollectDigits(3))
    &&& i > 64 ==> lookup_key(m, KeyCode::Char('4'), 0, KeyKind::Press, 0) == Some(UserCommand::CollectDigits(4))
    &&& i > 65 ==> lookup_key(m, KeyCode::Char('5'), 0, KeyKind::Press, 0) == Some(UserCommand::CollectDigits(5))
    &&& i > 66 ==> lookup_key(m, KeyCode::Char('6'), 0, KeyKind::Press, 0) == Some(UserCommand::CollectDigits(6))
    &&& i > 67 ==> lookup_key(m, KeyCode::Char('7'), 0, KeyKind::Press, 0) == Some(UserCommand::CollectDigits(7))
    &&& i > 68 ==> lookup_key(m, KeyCode::Char('8'), 0, KeyKind::Press, 0) == Some(UserCommand::CollectDigits(8))
    &&& i > 69 ==> lookup_key(m, KeyCode::Char('9'), 0, KeyKind::Press, 0) == Some(UserCommand::CollectDigits(9))
    &&& i > 70 ==> lookup_key(m, KeyCode::Char('.'), 0, KeyKind::Press, 0) == Some(UserCommand::CollectDecimal)
}

/// The word of a key that the table names alone stands for that key, with no modifier.
pub proof fn lemma_word_combo(code: KeyCode)
    requires
        code is Up || code is Down || code is Left || code is Right || code is PageUp || code is PageDown || code is Home
            || code is End || code is Esc || code is Enter || (code matches KeyCode::Char(c) && (c as u32) < 128 && c
            != '+'),
    ensures
        combo_spec(key_word(code)) == Some(Ok::<KeyCombo, ErrView>(KeyCombo::Key { code, mods: 0 })),
{
    if let KeyCode::Char(c) = code {
        lemma_char_combo(c);
    } else {
        lemma_named_words();
        match code {
            KeyCode::Up => assert(key_word(code) == "up"@),
            KeyCode::Down => assert(key_word(code) == "down"@),
            KeyCode::Left => assert(key_word(code) == "left"@),
            KeyCode::Right => assert(key_word(code) == "right"@),
            KeyCode::PageUp => assert(key_word(code) == "pageup"@),
            KeyCode::PageDown => assert(key_word(code) == "pagedown"@),
            KeyCode::Home => assert(key_word(code) == "home"@),
            KeyCode::End => assert(key_word(code) == "end"@),
            KeyCode::Esc => assert(key_word(code) == "esc"@),
            KeyCode::Enter => assert(key_word(code) == "enter"@),
            _ => {},
        }
    }
}

/// Binding, from entry `i` of the table, what its lowercase name `low` reads as keeps key
/// `code` (named alone by entry `k`) giving `cmd`, and starts it giving `cmd` at entry `k`.
proof fn lemma_bind_keeps(
    m: Seq<KeyBinding>,
    i: int,
    low: Seq<char>,
    found: Option<Result<KeyCombo, ErrView>>,
    cmd_i: UserCommand,
    k: int,
    code: KeyCode,
    cmd: UserCommand,
)
    requires
        found == combo_spec(low),
        code is Up || code is Down || code is Left || code is Right || code is PageUp || code is PageDown || code is Home
            || code is End || code is Esc || code is Enter || (code matches KeyCode::Char(c) && (c as u32) < 128 && c
            != '+' && !('A' <= c <= 'Z')),
        i > k ==> lookup_key(m, code, 0, KeyKind::Press, 0) == Some(cmd),
        i == k ==> cmd_i == cmd && low == key_word(code),
        i > k ==> low != key_word(code),
    ensures
        i + 1 > k ==> lookup_key(
            match found {
                Some(Ok(KeyCombo::Key { code, mods })) => m.push(KeyBinding { code, mods, cmd: cmd_i }),
                _ => m,
            },
            code,
            0,
            KeyKind::Press,
            0,
        ) == Some(cmd),
{
    if i == k {
        lemma_word_combo(code);
    }
    if let Some(Ok(KeyCombo::Key { code: c2, mods })) = found {
        let b = KeyBinding { code: c2, mods, cmd: cmd_i };
        let m2 = m.push(b);
        assert(m2.drop_last() =~= m);
        assert(m2.last() == b);
        if i > k && normal_key(c2, mods) == normal_key(code, 0) {
            lemma_normal_plain(c2, mods, code);
            lemma_plain_key(low, c2);
            lemma_key_word(low, c2);
        }
    }
}

/// Binding entry `i` of the table keeps the keys of `alone_keys_bound_1` giving their
/// commands.
#[verifier::spinoff_prover]
proof fn lemma_bind_entry_1(m: Seq<KeyBinding>, i: int, found: Option<Result<KeyCombo, ErrView>>)
    requires
        0 <= i < key_table().len(),
        found == combo_spec(ascii_lowered(key_table()[i].0@)),
        alone_keys_bound_1(m, i),
    ensures
        alone_keys_bound_1(
            match found {
                Some(Ok(KeyCombo::Key { code, mods })) => m.push(KeyBinding { code, mods, cmd: key_table()[i].1 }),
                _ => m,
            },
            i + 1,
        ),
{
    lemma_table_entry(i);
    let low = ascii_lowered(key_table()[i].0@);
    lemma_bind_keeps(m, i, low, found, key_table()[i].1, 2, KeyCode::Char('q'), UserCommand::Quit);
    lemma_bind_keeps(m, i, low, found, key_table()[i].1, 3, KeyCode::Esc, UserCommand::Quit);
    lemma_bind_keeps(m, i, low, found, key_table()[i].1, 4, KeyCode::Up, UserCommand::ScrollUp);
    lemma_bind_keeps(m, i, low, found, key_table()[i].1, 5, KeyCode::Down, UserCommand::ScrollDown);
    lemma_bind_keeps(m, i, low, found, key_table()[i].1, 8, KeyCode::Left, UserCommand::PanLeft);
    lemma_bind_keeps(m, i, low, found, key_table()[i].1, 9, KeyCode::Right, UserCommand::PanRight);
    lemma_bind_keeps(m, i, low, found, key_table()[i].1, 10, KeyCode::PageUp, UserCommand::PageUp);
    lemma_bind_keeps(m, i, low, found, key_table()[i].1, 11, KeyCode::PageDown, UserCommand::PageDown);
    lemma_bind_keeps(m, i, low, found, key_table()[i].1, 12, KeyCode::Home, UserCommand::ScrollToTop);
    lemma_bind_keeps(m, i, low, found, key_table()[i].1, 13, KeyCode::End, UserCommand::ScrollToBottom);
    lemma_bind_keeps(m, i, low, found, key_table()[i].1, 14, KeyCode::Char('&'), UserCommand::FilterPrompt);
    lemma_bind_keeps(m, i, low, found, key_table()[i].1, 15, KeyCode::Char('/'), UserCommand::ForwardSearchPrompt);
    lemma_bind_keeps(m, i, low, found, key_table()[i].1, 16, KeyCode::Char('?'), UserCommand::BackwardSearchPrompt);
    lemma_bind_keeps(m, i, low, found, key_table()[i].1, 17, KeyCode::Char('n'), UserCommand::SearchNext);
    lemma_bind_keeps(m, i, low, found, key_table()[i].1, 19, KeyCode::Char('r'), UserCommand::RefreshDisplay);
}

/// Binding entry `i` of the table keeps the keys of `alone_keys_bound_2` giving their
/// commands.
#[verifier::spinoff_prover]
proof fn lemma_bind_entry_2(m: Seq<KeyBinding>, i: int, found: Option<Result<KeyCombo, ErrView>>)
    requires
        0 <= i < key_table().len(),
        found == combo_spec(ascii_lowered(key_table()[i].0@)),
        alone_keys_bound_2(m, i),
    ensures
        alone_keys_bound_2(
            match found {
                Some(Ok(KeyCombo::Key { code, mods })) => m.push(KeyBinding { code, mods, cmd: key_table()[i].1 }),
                _ => m,
            },
            i + 1,
        ),
{
    lemma_table_entry(i);
    let low = ascii_lowered(key_table()[i].0@);
    lemma_bind_keeps(m, i, low, found, key_table()[i].1, 23, KeyCode::Char('b'), UserCommand::PageUp);
    lemma_bind_keeps(m, i, low, found, key_table()[i].1, 25, KeyCode::Char('w'), UserCommand::PageUpSticky);
    lemma_bind_keeps(m, i, low, found, key_table()[i].1, 26, KeyCode::Char(' '), UserCommand::PageDown);
    lemma_bind_keeps(m, i, low, found, key_table()[i].1, 29, KeyCode::Char('f'), UserCommand::PageDown);
    lemma_bind_keeps(m, i, low, found, key_table()[i].1, 30, KeyCode::Char('z'), UserCommand::PageDownSticky);
    lemma_bind_keeps(m, i, low, found, key_table()[i].1, 31, KeyCode::Char('g'), UserCommand::SeekStartLine);
    lemma_bind_keeps(m, i, low, found, key_table()[i].1, 32, KeyCode::Char('<'), UserCommand::SeekStartLine);
    lemma_bind_keeps(m, i, low, found, key_table()[i].1, 34, KeyCode::Char('>'), UserCommand::SeekEndLine);
    lemma_bind_keeps(m, i, low, found, key_table()[i].1, 35, KeyCode::Char('p'), UserCommand::GotoPercent);
    lemma_bind_keeps(m, i, low, found, key_table()[i].1, 36, KeyCode::Char('%'), UserCommand::GotoPercent);
    lemma_bind_keeps(m, i, low, found, key_table()[i].1, 38, KeyCode::Enter, UserCommand::ScrollDown);
    lemma_bind_keeps(m, i, low, found, key_table()[i].1, 39, KeyCode::Char('j'), UserCommand::ScrollDown);
    lemma_bind_keeps(m, i, low, found, key_table()[i].1, 42, KeyCode::Char('e'), UserCommand::ScrollDown);
    lemma_bind_keeps(m, i, low, found, key_table()[i].1, 44, KeyCode::Char('y'), UserCommand::ScrollUp);
    lemma_bind_keeps(m, i, low, found, key_table()[i].1, 45, KeyCode::Char('k'), UserCommand::ScrollUp);
}

/// Binding entry `i` of the table keeps the keys of `alone_keys_bound_3` giving their
/// commands.
#[verifier::spinoff_prover]
proof fn lemma_bind_entry_3(m: Seq<KeyBinding>, i: int, found: Option<Result<KeyCombo, ErrView>>)
    requires
        0 <= i < key_table().len(),
        found == combo_spec(ascii_lowered(key_table()[i].0@)),
        alone_keys_bound_3(m, i),
    ensures
        alone_keys_bound_3(
            match found {
                Some(Ok(KeyCombo::Key { code, mods })) => m.push(KeyBinding { code, mods, cmd: key_table()[i].1 }),
                _ => m,
            },
            i + 1,
        ),
{
    lemma_table_entry(i);

    let low = ascii_lowered(key_table()[i].0@);
    lemma_bind_keeps(m, i, low, found, key_table()[i].1, 51, KeyCode::Char('d'), UserCommand::HalfPageDown);
    lemma_bind_keeps(m, i, low, found, key_table()[i].1, 53, KeyCode::Char('u'), UserCommand::HalfPageUp);
    lemma_bind_keeps(m, i, low, found, key_table()[i].1, 56, KeyCode::Char('m'), UserCommand::SetBookmarkTop);
    lemma_bind_keeps(m, i, low, found, key_table()[i].1, 58, KeyCode::Char('\''), UserCommand::GotoBookmark);
    lemma_bind_keeps(m, i, low, found, key_table()[i].1, 60, KeyCode::Char('0'), UserCommand::CollectDigits(0));
    lemma_bind_keeps(m, i, low, found, key_table()[i].1, 61, KeyCode::Char('1'), UserCommand::CollectDigits(1));
    lemma_bind_keeps(m, i, low, found, key_table()[i].1, 62, KeyCode::Char('2'), UserCommand::CollectDigits(2));
    lemma_bind_keeps(m, i, low, found, key_table()[i].1, 63, KeyCode::Char('3'), UserCommand::CollectDigits(3));
    lemma_bind_keeps(m, i, low, found, key_table()[i].1, 64, KeyCode::Char('4'), UserCommand::CollectDigits(4));
    lemma_bind_keeps(m, i, low, found, key_table()[i].1, 65, KeyCode::Char('5'), UserCommand::CollectDigits(5));
    lemma_bind_keeps(m, i, low, found, key_table()[i].1, 66, KeyCode::Char('6'), UserCommand::CollectDigits(6));
    lemma_bind_keeps(m, i, low, found, key_table()[i].1, 67, KeyCode::Char('7'), UserCommand::CollectDigits(7));
    lemma_bind_keeps(m, i, low, found, key_table()[i].1, 68, KeyCode::Char('8'), UserCommand::CollectDigits(8));
    lemma_bind_keeps(m, i, low, found, key_table()[i].1, 69, KeyCode::Char('9'), UserCommand::CollectDigits(9));
    lemma_bind_keeps(m, i, low, found, key_table()[i].1, 70, KeyCode::Char('.'), UserCommand::CollectDecimal);
}

/// Binding entry `i` of the table keeps each key named alone giving its command, and starts
/// the key of that entry giving it.
proof fn lemma_bind_entry(m: Seq<KeyBinding>, i: int, found: Option<Result<KeyCombo, ErrView>>)
    requires
        0 <= i < key_table().len(),
        found == combo_spec(ascii_lowered(key_table()[i].0@)),
        alone_keys_bound(m, i),
    ensures
        alone_keys_bound(
            match found {
                Some(Ok(KeyCombo::Key { code, mods })) => m.push(KeyBinding { code, mods, cmd: key_table()[i].1 }),
                _ => m,
            },
            i + 1,
        ),
{
    lemma_bind_entry_1(m, i, found);
    lemma_bind_entry_2(m, i, found);
    lemma_bind_entry_3(m, i, found);
}

/// The mouse actions that the table names alone, with no modifier, give their entries'
/// commands in the bindings `m` made from the first `i` entries, for those entries among them.
pub open spec fn mouse_actions_bound(m: Seq<MouseBinding>, i: int) -> bool {
    &&& i > 71 ==> lookup_mouse(m, MouseAction::Down(MouseButton::Left), 0) == Some(UserCommand::SelectWordAt(0, 0))
    &&& i > 72 ==> lookup_mouse(m, MouseAction::Drag(MouseButton::Left), 0) == Some(UserCommand::SelectWordDrag(0, 0))
    &&& i > 73 ==> lookup_mouse(m, MouseAction::ScrollUp, 0) == Some(UserCommand::MouseScrollUp)
    &&& i > 74 ==> lookup_mouse(m, MouseAction::ScrollDown, 0) == Some(UserCommand::MouseScrollDown)
}

/// Binding, from entry `i` of the table, what its lowercase name `low` reads as keeps mouse
/// action `kind` (named alone by entry `k`) giving `cmd`, and starts it giving `cmd` at
/// entry `k`.
proof fn lemma_bind_mouse_keeps(
    m: Seq<MouseBinding>,
    i: int,
    low: Seq<char>,
    found: Option<Result<KeyCombo, ErrView>>,
    cmd_i: UserCommand,
    k: int,
    kind: MouseAction,
    cmd: UserCommand,
)
    requires
        found == combo_spec(low),
        kind == MouseAction::Down(MouseButton::Left) || kind == MouseAction::Drag(MouseButton::Left) || kind
            == MouseAction::ScrollUp || kind == MouseAction::ScrollDown,
        i > k ==> lookup_mouse(m, kind, 0) == Some(cmd),
        i == k ==> cmd_i == cmd && low == mouse_word(kind),
        i > k ==> low != mouse_word(kind),
    ensures
        i + 1 > k ==> lookup_mouse(
            match found {
                Some(Ok(KeyCombo::Mouse { kind, mods })) => m.push(MouseBinding { kind, mods, cmd: cmd_i }),
                _ => m,
            },
            kind,
            0,
        ) == Some(cmd),
{
    if i == k {
        lemma_mouse_words();
        assert(kind == MouseAction::Down(MouseButton::Left) ==> mouse_word(kind) == "mouseleft"@);
        assert(kind == MouseAction::Drag(MouseButton::Left) ==> mouse_word(kind) == "mouseleftdrag"@);
        assert(kind == MouseAction::ScrollUp ==> mouse_word(kind) == "mousewheelup"@);
        assert(kind == MouseAction::ScrollDown ==> mouse_word(kind) == "mousewheeldown"@);
    }
    if let Some(Ok(KeyCombo::Mouse { kind: k2, mods })) = found {
        let b = MouseBinding { kind: k2, mods, cmd: cmd_i };
        let m2 = m.push(b);
        assert(m2.drop_last() =~= m);
        assert(m2.last() == b);
        if i > k && k2 == kind && mods == 0 {
            lemma_plain_mouse(low, k2);
            lemma_mouse_word(low, k2);
        }
    }
}

/// Binding entry `i` of the table keeps each mouse action named alone giving its command, and
/// starts the action of that entry giving it.
proof fn lemma_bind_mouse_entry(m: Seq<MouseBinding>, i: int, found: Option<Result<KeyCombo, ErrView>>)
    requires
        0 <= i < key_table().len(),
        found == combo_spec(ascii_lowered(key_table()[i].0@)),
        mouse_actions_bound(m, i),
    ensures
        mouse_actions_bound(
            match found {
                Some(Ok(KeyCombo::Mouse { kind, mods })) => m.push(MouseBinding { kind, mods, cmd: key_table()[i].1 }),
                _ => m,
            },
            i + 1,
        ),
{
    lemma_table_entry(i);
    let low = ascii_lowered(key_table()[i].0@);
    lemma_bind_mouse_keeps(m, i, low, found, key_table()[i].1, 71, MouseAction::Down(MouseButton::Left), UserCommand::SelectWordAt(0, 0));
    lemma_bind_mouse_keeps(m, i, low, found, key_table()[i].1, 72, MouseAction::Drag(MouseButton::Left), UserCommand::SelectWordDrag(0, 0));
    lemma_bind_mouse_keeps(m, i, low, found, key_table()[i].1, 73, MouseAction::ScrollUp, UserCommand::MouseScrollUp);
    lemma_bind_mouse_keeps(m, i, low, found, key_table()[i].1, 74, MouseAction::ScrollDown, UserCommand::MouseScrollDown);
}

fn keymap_table() -> (r: Vec<(&'static str, UserCommand)>)
    ensures
        r@ == key_table(),
{
    let v = vec![
        ("Ctrl+W", UserCommand::Quit),
        ("Shift+Q", UserCommand::Quit),
        ("Q", UserCommand::Quit),
        ("Esc", UserCommand::Quit),
        ("Up", UserCommand::ScrollUp),
        ("Down", UserCommand::ScrollDown),
        ("Ctrl+Left", UserCommand::PanLeftMax),
        ("Ctrl+Right", UserCommand::PanRightMax),
        ("Left", UserCommand::PanLeft),
        ("Right", UserCommand::PanRight),
        ("PageUp", UserCommand::PageUp),
        ("PageDown", UserCommand::PageDown),
        ("Home", UserCommand::ScrollToTop),
        ("End", UserCommand::ScrollToBottom),
        ("&", UserCommand::FilterPrompt),
        ("/", UserCommand::ForwardSearchPrompt),
        ("?", UserCommand::BackwardSearchPrompt),
        ("N", UserCommand::SearchNext),
        ("Shift+N", UserCommand::SearchPrev),
        ("R", UserCommand::RefreshDisplay),
        ("Ctrl+R", UserCommand::RefreshDisplay),
        ("Ctrl+L", UserCommand::RefreshDisplay),
        ("Shift+R", UserCommand::RefreshDisplay),
        ("B", UserCommand::PageUp),
        ("Ctrl+B", UserCommand::PageUp),
        ("W", UserCommand::PageUpSticky),
        (" ", UserCommand::PageDown),
        ("Ctrl+V", UserCommand::PageDown),
        ("Ctrl+F", UserCommand::PageDown),
        ("F", UserCommand::PageDown),
        ("Z", UserCommand::PageDownSticky),
        ("G", UserCommand::SeekStartLine),
        ("<", UserCommand::SeekStartLine),
        ("Shift+G", UserCommand::SeekEndLine),
        (">", UserCommand::SeekEndLine),
        ("P", UserCommand::GotoPercent),
        ("%", UserCommand::GotoPercent),
        ("Shift+P", UserCommand::GotoOffset),
        ("Enter", UserCommand::ScrollDown),
        ("J", UserCommand::ScrollDown),
        ("Shift+J", UserCommand::ScrollDown),
        ("Ctrl+J", UserCommand::ScrollDown),
        ("E", UserCommand::ScrollDown),
        ("Ctrl+E", UserCommand::ScrollDown),
        ("Y", UserCommand::ScrollUp),
        ("K", UserCommand::ScrollUp),
        ("Shift+Y", UserCommand::ScrollUp),
        ("Shift+K", UserCommand::ScrollUp),
        ("Ctrl+Y", UserCommand::ScrollUp),
        ("Ctrl+P", UserCommand::ScrollUp),
        ("Ctrl+K", UserCommand::ScrollUp),
        ("D", UserCommand::HalfPageDown),
        ("Ctrl+D", UserCommand::HalfPageDown),
        ("U", UserCommand::HalfPageUp),
        ("Ctrl+U", UserCommand::HalfPageUp),
        ("Shift+F", UserCommand::SeekEndLine),
        ("M", UserCommand::SetBookmarkTop),
        ("Shift+M", UserCommand::SetBookmarkBottom),
        ("'", UserCommand::GotoBookmark),
        ("Ctrl+X", UserCommand::GotoBookmark),
        ("0", UserCommand::CollectDigits(0)),
        ("1", UserCommand::CollectDigits(1)),
        ("2", UserCommand::CollectDigits(2)),
        ("3", UserCommand::CollectDigits(3)),
        ("4", UserCommand::CollectDigits(4)),
        ("5", UserCommand::CollectDigits(5)),
        ("6", UserCommand::CollectDigits(6)),
        ("7", UserCommand::CollectDigits(7)),
        ("8", UserCommand::CollectDigits(8)),
        ("9", UserCommand::CollectDigits(9)),
        (".", UserCommand::CollectDecimal),
        ("MouseLeft", UserCommand::SelectWordAt(0, 0)),
        ("MouseLeftDrag", UserCommand::SelectWordDrag(0, 0)),
        ("MouseWheelUp", UserCommand::MouseScrollUp),
        ("MouseWheelDown", UserCommand::MouseScrollDown),
    ];
    proof {
        assert(v@ =~= key_table());
    }
    v
}

/// A key combination bound to a command.
#[derive(Copy, Clone, Debug, PartialEq, Eq, Structural)]
pub struct KeyBinding {
    pub code: KeyCode,
    pub mods: u8,
    pub cmd: UserCommand,
}

/// A mouse action bound to a command.
#[derive(Copy, Clone, Debug, PartialEq, Eq, Structural)]
pub struct MouseBinding {
    pub kind: MouseAction,
    pub mods: u8,
    pub cmd: UserCommand,
}

/// The keyboard bindings that the entries of `t` give, in order; an entry that names no key
/// combination gives none.
pub open spec fn key_bindings(t: Seq<(&'static str, UserCommand)>) -> Seq<KeyBinding>
    decreases t.len(),
{
    if t.len() == 0 {
        Seq::empty()
    } else {
        let rest = key_bindings(t.drop_last());
        match combo_spec(lowercase_of(t.last().0@)) {
            Some(Ok(KeyCombo::Key { code, mods })) => rest.push(KeyBinding { code, mods, cmd: t.last().1 }),
            _ => rest,
        }
    }
}

/// The mouse bindings that the entries of `t` give, in order.
pub open spec fn mouse_bindings(t: Seq<(&'static str, UserCommand)>) -> Seq<MouseBinding>
    decreases t.len(),
{
    if t.len() == 0 {
        Seq::empty()
    } else {
        let rest = mouse_bindings(t.drop_last());
        match combo_spec(lowercase_of(t.last().0@)) {
            Some(Ok(KeyCombo::Mouse { kind, mods })) => rest.push(MouseBinding { kind, mods, cmd: t.last().1 }),
            _ => rest,
        }
    }
}

/// Whether a key went down, was held or came up.
#[derive(Copy, Clone, Debug, PartialEq, Eq, Structural)]
pub enum KeyKind {
    Press,
    Repeat,
    Release,
}

/// What the terminal reported.
#[derive(Copy, Clone, Debug, PartialEq, Eq, Structural)]
pub enum InputEvent {
    Key { code: KeyCode, mods: u8, kind: KeyKind, state: u8 },
    Mouse { action: MouseAction, column: u16, row: u16, mods: u8 },
    Resize(u16, u16),
    /// Focus gained or lost, or a paste: nothing to answer.
    Other,
    /// Nothing came before the wait ran out.
    TimedOut,
}

/// The uppercase form of an ASCII lowercase letter.
pub open spec fn ascii_upper(c: char) -> char {
    if 'a' <= c <= 'z' {
        (((c as u32) - 32) as u8) as char
    } else {
        c
    }
}

/// A key and its modifiers as the terminal library compares them: an uppercase letter
/// implies shift, and with shift a lowercase letter counts as uppercase.
pub open spec fn normal_key(code: KeyCode, mods: u8) -> (KeyCode, u8) {
    match code {
        KeyCode::Char(c) => if 'A' <= c <= 'Z' {
            (code, mods | SHIFT)
        } else if mods & SHIFT != 0 {
            (KeyCode::Char(ascii_upper(c)), mods)
        } else {
            (code, mods)
        },
        _ => (code, mods),
    }
}

/// A binding answers a key that is pressed, with no extra keyboard state, and that compares
/// equal to it.
pub open spec fn key_matches(b: KeyBinding, code: KeyCode, mods: u8, kind: KeyKind, state: u8) -> bool {
    &&& kind == KeyKind::Press
    &&& state == 0
    &&& normal_key(b.code, b.mods) == normal_key(code, mods)
}

/// The command of the last binding that answers the key.
pub open spec fn lookup_key(m: Seq<KeyBinding>, code: KeyCode, mods: u8, kind: KeyKind, state: u8) -> Option<UserCommand>
    decreases m.len(),
{
    if m.len() == 0 {
        None
    } else if key_matches(m.last(), code, mods, kind, state) {
        Some(m.last().cmd)
    } else {
        lookup_key(m.drop_last(), code, mods, kind, state)
    }
}

/// The command of the last binding of the mouse action.
pub open spec fn lookup_mouse(m: Seq<MouseBinding>, kind: MouseAction, mods: u8) -> Option<UserCommand>
    decreases m.len(),
{
    if m.len() == 0 {
        None
    } else if m.last().kind == kind && m.last().mods == mods {
        Some(m.last().cmd)
    } else {
        lookup_mouse(m.drop_last(), kind, mods)
    }
}

/// Reads terminal events into commands.
pub struct Reader {
    pub keymap: Vec<KeyBinding>,
    pub mousemap: Vec<MouseBinding>,
}

/// The command for an event; `None` where the reader waits for the next event.
pub open spec fn command_for(r: Reader, e: InputEvent) -> Option<UserCommand> {
    match e {
        InputEvent::Key { code, mods, kind, state } => Some(
            match lookup_key(r.keymap@, code, mods, kind, state) {
                Some(c) => c,
                None => UserCommand::Idle,
            },
        ),
        InputEvent::Mouse { action, column, row, mods } => Some(
            match lookup_mouse(r.mousemap@, action, mods) {
                Some(UserCommand::SelectWordAt(_, _)) => UserCommand::SelectWordAt(column, row),
                Some(UserCommand::SelectWordDrag(_, _)) => UserCommand::SelectWordDrag(column, row),
                Some(c) => c,
                None => UserCommand::Idle,
            },
        ),
        InputEvent::Resize(_, _) => Some(UserCommand::TerminalResize),
        InputEvent::Other => None,
        InputEvent::TimedOut => Some(UserCommand::Idle),
    }
}

fn upper(c: char) -> (r: char)
    ensures
        r == ascii_upper(c),
{
    if 'a' <= c && c <= 'z' {
        (((c as u32) - 32) as u8) as char
    } else {
        c
    }
}

fn normalize(code: KeyCode, mods: u8) -> (r: (KeyCode, u8))
    ensures
        r == normal_key(code, mods),
{
    match code {
        KeyCode::Char(c) => if 'A' <= c && c <= 'Z' {
            (code, mods | SHIFT)
        } else if mods & SHIFT != 0 {
            (KeyCode::Char(upper(c)), mods)
        } else {
            (code, mods)
        },
        _ => (code, mods),
    }
}

impl Reader {
    /// The key combination `orig` names, read case-blind: `Ctrl`, `Alt` and `Shift` joined
    /// by `+` to one key name, single character, `F` and a number, or mouse action.
    pub fn keycode(orig: &str) -> (r: Result<KeyCombo, KeyComboError>)
        requires
            combo_spec(lowercase_of(orig@)) is Some,
        ensures
            Some(result_view(r)) == combo_spec(lowercase_of(orig@)),
    {
        let lower = to_lowercase(orig);
        match scan_combo(lower.as_str()) {
            Some(r) => r,
            None => {
                proof {
                    assert(false);
                }
                Err(combo_error(ComboErrorKind::NoAction))
            },
        }
    }

    /// `keycode`, where it has an answer; `None` where the combination has both an action
    /// key and a mouse action, neither of them, or an `F` and no number.
    pub fn try_keycode(orig: &str) -> (r: Option<Result<KeyCombo, KeyComboError>>)
        ensures
            combo_view(r) == combo_spec(lowercase_of(orig@)),
            is_ascii_text(orig@) ==> lowercase_of(orig@) == ascii_lowered(orig@),
    {
        let lower = to_lowercase(orig);
        proof {
            if is_ascii_text(orig@) {
                assert(lowercase_of(orig@) =~= ascii_lowered(orig@));
            }
        }
        if scan_combo(lower.as_str()).is_some() {
            Some(Self::keycode(orig))
        } else {
            None
        }
    }

    /// A reader with the viewer's key map: each entry of the table that names a key
    /// combination binds it.
    pub fn new() -> (r: Self)
        ensures
            r.keymap@ == key_bindings(key_table()),
            r.mousemap@ == mouse_bindings(key_table()),
            forall|column: u16, row: u16|
                #[trigger] command_for(r, InputEvent::Mouse { action: MouseAction::Down(MouseButton::Left), column, row, mods: 0 }) == Some(UserCommand::SelectWordAt(column, row)),
            forall|column: u16, row: u16|
                #[trigger] command_for(r, InputEvent::Mouse { action: MouseAction::Drag(MouseButton::Left), column, row, mods: 0 }) == Some(UserCommand::SelectWordDrag(column, row)),
            forall|column: u16, row: u16|
                #[trigger] command_for(r, InputEvent::Mouse { action: MouseAction::ScrollUp, column, row, mods: 0 }) == Some(UserCommand::MouseScrollUp),
            forall|column: u16, row: u16|
                #[trigger] command_for(r, InputEvent::Mouse { action: MouseAction::ScrollDown, column, row, mods: 0 }) == Some(UserCommand::MouseScrollDown),
            command_for(r, InputEvent::Key { code: KeyCode::Char('q'), mods: 0, kind: KeyKind::Press, state: 0 }) == Some(UserCommand::Quit),
            command_for(r, InputEvent::Key { code: KeyCode::Esc, mods: 0, kind: KeyKind::Press, state: 0 }) == Some(UserCommand::Quit),
            command_for(r, InputEvent::Key { code: KeyCode::Up, mods: 0, kind: KeyKind::Press, state: 0 }) == Some(UserCommand::ScrollUp),
            command_for(r, InputEvent::Key { code: KeyCode::Down, mods: 0, kind: KeyKind::Press, state: 0 }) == Some(UserCommand::ScrollDown),
            command_for(r, InputEvent::Key { code: KeyCode::Left, mods: 0, kind: KeyKind::Press, state: 0 }) == Some(UserCommand::PanLeft),
            command_for(r, InputEvent::Key { code: KeyCode::Right, mods: 0, kind: KeyKind::Press, state: 0 }) == Some(UserCommand::PanRight),
            command_for(r, InputEvent::Key { code: KeyCode::PageUp, mods: 0, kind: KeyKind::Press, state: 0 }) == Some(UserCommand::PageUp),
            command_for(r, InputEvent::Key { code: KeyCode::PageDown, mods: 0, kind: KeyKind::Press, state: 0 }) == Some(UserCommand::PageDown),
            command_for(r, InputEvent::Key { code: KeyCode::Home, mods: 0, kind: KeyKind::Press, state: 0 }) == Some(UserCommand::ScrollToTop),
            command_for(r, InputEvent::Key { code: KeyCode::End, mods: 0, kind: KeyKind::Press, state: 0 }) == Some(UserCommand::ScrollToBottom),
            command_for(r, InputEvent::Key { code: KeyCode::Char('&'), mods: 0, kind: KeyKind::Press, state: 0 }) == Some(UserCommand::FilterPrompt),
            command_for(r, InputEvent::Key { code: KeyCode::Char('/'), mods: 0, kind: KeyKind::Press, state: 0 }) == Some(UserCommand::ForwardSearchPrompt),
            command_for(r, InputEvent::Key { code: KeyCode::Char('?'), mods: 0, kind: KeyKind::Press, state: 0 }) == Some(UserCommand::BackwardSearchPrompt),
            command_for(r, InputEvent::Key { code: KeyCode::Char('n'), mods: 0, kind: KeyKind::Press, state: 0 }) == Some(UserCommand::SearchNext),
            command_for(r, InputEvent::Key { code: KeyCode::Char('r'), mods: 0, kind: KeyKind::Press, state: 0 }) == Some(UserCommand::RefreshDisplay),
            command_for(r, InputEvent::Key { code: KeyCode::Char('b'), mods: 0, kind: KeyKind::Press, state: 0 }) == Some(UserCommand::PageUp),
            command_for(r, InputEvent::Key { code: KeyCode::Char('w'), mods: 0, kind: KeyKind::Press, state: 0 }) == Some(UserCommand::PageUpSticky),
            command_for(r, InputEvent::Key { code: KeyCode::Char(' '), mods: 0, kind: KeyKind::Press, state: 0 }) == Some(UserCommand::PageDown),
            command_for(r, InputEvent::Key { code: KeyCode::Char('f'), mods: 0, kind: KeyKind::Press, state: 0 }) == Some(UserCommand::PageDown),
            command_for(r, InputEvent::Key { code: KeyCode::Char('z'), mods: 0, kind: KeyKind::Press, state: 0 }) == Some(UserCommand::PageDownSticky),
            command_for(r, InputEvent::Key { code: KeyCode::Char('g'), mods: 0, kind: KeyKind::Press, state: 0 }) == Some(UserCommand::SeekStartLine),
            command_for(r, InputEvent::Key { code: KeyCode::Char('<'), mods: 0, kind: KeyKind::Press, state: 0 }) == Some(UserCommand::SeekStartLine),
            command_for(r, InputEvent::Key { code: KeyCode::Char('>'), mods: 0, kind: KeyKind::Press, state: 0 }) == Some(UserCommand::SeekEndLine),
            command_for(r, InputEvent::Key { code: KeyCode::Char('p'), mods: 0, kind: KeyKind::Press, state: 0 }) == Some(UserCommand::GotoPercent),
            command_for(r, InputEvent::Key { code: KeyCode::Char('%'), mods: 0, kind: KeyKind::Press, state: 0 }) == Some(UserCommand::GotoPercent),
            command_for(r, InputEvent::Key { code: KeyCode::Enter, mods: 0, kind: KeyKind::Press, state: 0 }) == Some(UserCommand::ScrollDown),
            command_for(r, InputEvent::Key { code: KeyCode::Char('j'), mods: 0, kind: KeyKind::Press, state: 0 }) == Some(UserCommand::ScrollDown),
            command_for(r, InputEvent::Key { code: KeyCode::Char('e'), mods: 0, kind: KeyKind::Press, state: 0 }) == Some(UserCommand::ScrollDown),
            command_for(r, InputEvent::Key { code: KeyCode::Char('y'), mods: 0, kind: KeyKind::Press, state: 0 }) == Some(UserCommand::ScrollUp),
            command_for(r, InputEvent::Key { code: KeyCode::Char('k'), mods: 0, kind: KeyKind::Press, state: 0 }) == Some(UserCommand::ScrollUp),
            command_for(r, InputEvent::Key { code: KeyCode::Char('d'), mods: 0, kind: KeyKind::Press, state: 0 }) == Some(UserCommand::HalfPageDown),
            command_for(r, InputEvent::Key { code: KeyCode::Char('u'), mods: 0, kind: KeyKind::Press, state: 0 }) == Some(UserCommand::HalfPageUp),
            command_for(r, InputEvent::Key { code: KeyCode::Char('m'), mods: 0, kind: KeyKind::Press, state: 0 }) == Some(UserCommand::SetBookmarkTop),
            command_for(r, InputEvent::Key { code: KeyCode::Char('\''), mods: 0, kind: KeyKind::Press, state: 0 }) == Some(UserCommand::GotoBookmark),
            command_for(r, InputEvent::Key { code: KeyCode::Char('0'), mods: 0, kind: KeyKind::Press, state: 0 }) == Some(UserCommand::CollectDigits(0)),
            command_for(r, InputEvent::Key { code: KeyCode::Char('1'), mods: 0, kind: KeyKind::Press, state: 0 }) == Some(UserCommand::CollectDigits(1)),
            command_for(r, InputEvent::Key { code: KeyCode::Char('2'), mods: 0, kind: KeyKind::Press, state: 0 }) == Some(UserCommand::CollectDigits(2)),
            command_for(r, InputEvent::Key { code: KeyCode::Char('3'), mods: 0, kind: KeyKind::Press, state: 0 }) == Some(UserCommand::CollectDigits(3)),
            command_for(r, InputEvent::Key { code: KeyCode::Char('4'), mods: 0, kind: KeyKind::Press, state: 0 }) == Some(UserCommand::CollectDigits(4)),
            command_for(r, InputEvent::Key { code: KeyCode::Char('5'), mods: 0, kind: KeyKind::Press, state: 0 }) == Some(UserCommand::CollectDigits(5)),
            command_for(r, InputEvent::Key { code: KeyCode::Char('6'), mods: 0, kind: KeyKind::Press, state: 0 }) == Some(UserCommand::CollectDigits(6)),
            command_for(r, InputEvent::Key { code: KeyCode::Char('7'), mods: 0, kind: KeyKind::Press, state: 0 }) == Some(UserCommand::CollectDigits(7)),
            command_for(r, InputEvent::Key { code: KeyCode::Char('8'), mods: 0, kind: KeyKind::Press, state: 0 }) == Some(UserCommand::CollectDigits(8)),
            command_for(r, InputEvent::Key { code: KeyCode::Char('9'), mods: 0, kind: KeyKind::Press, state: 0 }) == Some(UserCommand::CollectDigits(9)),
            command_for(r, InputEvent::Key { code: KeyCode::Char('.'), mods: 0, kind: KeyKind::Press, state: 0 }) == Some(UserCommand::CollectDecimal),
    {
        let table = keymap_table();
        let mut keymap: Vec<KeyBinding> = Vec::new();
        let mut mousemap: Vec<MouseBinding> = Vec::new();
        let mut i: usize = 0;
        while i < table.len()
            invariant
                table@ == key_table(),
                0 <= i <= table@.len(),
                keymap@ == key_bindings(table@.take(i as int)),
                mousemap@ == mouse_bindings(table@.take(i as int)),
                alone_keys_bound(keymap@, i as int),
                mouse_actions_bound(mousemap@, i as int),
            decreases table@.len() - i,
        {
            let (name, cmd) = table[i];
            let ghost t = table@.take(i + 1);
            proof {
                assert(t.drop_last() =~= table@.take(i as int));
                assert(t.last() == table@[i as int]);
                lemma_table_entry(i as int);
                lemma_named_words();
            }
            let found = Self::try_keycode(name);
            proof {
                assert(lowercase_of(name@) == ascii_lowered(name@));
                lemma_bind_entry(keymap@, i as int, combo_view(found));
                lemma_bind_mouse_entry(mousemap@, i as int, combo_view(found));
            }
            match found {
                Some(Ok(KeyCombo::Key { code, mods })) => {
                    let ghost before = keymap@;
                    keymap.push(KeyBinding { code, mods, cmd });
                    proof {
                        assert(keymap@.drop_last() =~= before);
                    }
                },
                Some(Ok(KeyCombo::Mouse { kind, mods })) => {
                    let ghost before = mousemap@;
                    mousemap.push(MouseBinding { kind, mods, cmd });
                    proof {
                        assert(mousemap@.drop_last() =~= before);
                    }
                },
                _ => {},
            }
            i = i + 1;
        }
        proof {
            assert(table@.take(table@.len() as int) =~= table@);
        }
        Reader { keymap, mousemap }
    }

    fn find_key(&self, code: KeyCode, mods: u8, kind: KeyKind, state: u8) -> (r: Option<UserCommand>)
        ensures
            r == lookup_key(self.keymap@, code, mods, kind, state),
    {
        let want = normalize(code, mods);
        let mut i: usize = self.keymap.len();
        proof {
            assert(self.keymap@.take(i as int) =~= self.keymap@);
        }
        while i > 0
            invariant
                0 <= i <= self.keymap@.len(),
                want == normal_key(code, mods),
                lookup_key(self.keymap@, code, mods, kind, state)
                    == lookup_key(self.keymap@.take(i as int), code, mods, kind, state),
            decreases i,
        {
            let b = self.keymap[i - 1];
            let have = normalize(b.code, b.mods);
            let ghost m = self.keymap@.take(i as int);
            proof {
                assert(m.last() == b);
                assert(m.drop_last() =~= self.keymap@.take(i - 1));
            }
            if kind == KeyKind::Press && state == 0 && have.0 == want.0 && have.1 == want.1 {
                return Some(b.cmd);
            }
            i = i - 1;
        }
        None
    }

    fn find_mouse(&self, kind: MouseAction, mods: u8) -> (r: Option<UserCommand>)
        ensures
            r == lookup_mouse(self.mousemap@, kind, mods),
    {
        let mut i: usize = self.mousemap.len();
        proof {
            assert(self.mousemap@.take(i as int) =~= self.mousemap@);
        }
        while i > 0
            invariant
                0 <= i <= self.mousemap@.len(),
                lookup_mouse(self.mousemap@, kind, mods) == lookup_mouse(self.mousemap@.take(i as int), kind, mods),
            decreases i,
        {
            let b = self.mousemap[i - 1];
            let ghost m = self.mousemap@.take(i as int);
            proof {
                assert(m.last() == b);
                assert(m.drop_last() =~= self.mousemap@.take(i - 1));
            }
            if b.kind == kind && b.mods == mods {
                return Some(b.cmd);
            }
            i = i - 1;
        }
        None
    }

    /// The command for a terminal event, or `None` where the reader waits for the next one:
    /// a key gives its bound command, a mouse action its bound command (selection commands
    /// carry the event's cell), a resize `TerminalResize`, and a lapsed wait `Idle`.
    pub fn get_command(&self, event: InputEvent) -> (r: Option<UserCommand>)
        ensures
            r == command_for(*self, event),
    {
        match event {
            InputEvent::Key { code, mods, kind, state } => Some(
                match self.find_key(code, mods, kind, state) {
                    Some(c) => c,
                    None => UserCommand::Idle,
                },
            ),
            InputEvent::Mouse { action, column, row, mods } => Some(
                match self.find_mouse(action, mods) {
                    Some(UserCommand::SelectWordAt(_, _)) => UserCommand::SelectWordAt(column, row),
                    Some(UserCommand::SelectWordDrag(_, _)) => UserCommand::SelectWordDrag(column, row),
                    Some(c) => c,
                    None => UserCommand::Idle,
                },
            ),
            InputEvent::Resize(_, _) => Some(UserCommand::TerminalResize),
            InputEvent::Other => None,
            InputEvent::TimedOut => Some(UserCommand::Idle),
        }
    }
}

/// The key map answers Shift with a lowercase letter as it answers the uppercase letter.
pub proof fn lemma_shift_letter(c: char, mods: u8)
    requires
        'a' <= c <= 'z',
    ensures
        normal_key(KeyCode::Char(ascii_upper(c)), mods) == normal_key(KeyCode::Char(c), mods | SHIFT),
{
    let v = c as u32;
    assert((mods | 1u8) & 1u8 != 0) by (bit_vector);
    assert(97 <= v <= 122);
    assert(((v - 32) as u8) as u32 == v - 32);
}

} // verus!
