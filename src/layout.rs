//! A keyboard layout as plain data: for each physical key, its code, its
//! name, and the symbol it produces at each modifier level.
use vstd::prelude::*;

verus! {

/// What one key produces at one level: the symbol's Unicode code point (0
/// when it has none) and its canonical keysym name (`"dead_acute"`, `"e"`).
pub struct KeySymbol {
    pub codepoint: u32,
    pub name: String,
}

pub ghost struct SymbolView {
    pub codepoint: u32,
    pub name: Seq<char>,
}

impl View for KeySymbol {
    type V = SymbolView;

    open spec fn view(&self) -> SymbolView {
        SymbolView { codepoint: self.codepoint, name: self.name@ }
    }
}

/// One physical key. `levels[l]` is the first symbol at shift level `l`
/// (0 plain, 1 Shift, 2 AltGr, 3 AltGr+Shift), `None` where the level
/// produces nothing; `name` is `None` for an unnamed key-code slot.
pub struct LayoutKey {
    pub code: u32,
    pub name: Option<String>,
    pub levels: Vec<Option<KeySymbol>>,
}

pub ghost struct KeyView {
    pub code: u32,
    pub name: Option<Seq<char>>,
    pub levels: Seq<Option<SymbolView>>,
}

pub open spec fn symbol_view(s: Option<KeySymbol>) -> Option<SymbolView> {
    match s {
        Some(x) => Some(x@),
        None => None,
    }
}

impl View for LayoutKey {
    type V = KeyView;

    open spec fn view(&self) -> KeyView {
        KeyView {
            code: self.code,
            name: match self.name {
                Some(n) => Some(n@),
                None => None,
            },
            levels: self.levels@.map_values(|s: Option<KeySymbol>| symbol_view(s)),
        }
    }
}

/// A whole layout, its keys listed by ascending key code.
pub struct KeyboardLayout {
    pub keys: Vec<LayoutKey>,
}

impl View for KeyboardLayout {
    type V = Seq<KeyView>;

    open spec fn view(&self) -> Seq<KeyView> {
        self.keys@.map_values(|k: LayoutKey| k@)
    }
}

/// Key codes strictly ascend through the list.
pub open spec fn codes_ascending(keys: Seq<KeyView>) -> bool {
    forall|i: int, j: int| 0 <= i < j < keys.len() ==> keys[i].code < keys[j].code
}

impl KeyboardLayout {
    /// Whether the keys are listed by strictly ascending key code.
    pub fn is_ordered(&self) -> (r: bool)
        ensures
            r == codes_ascending(self@),
    {
        let n = self.keys.len();
        let mut i: usize = 1;
        while i < n
            invariant
                n == self.keys@.len(),
                1 <= i,
                forall|a: int, b: int| 0 <= a < b < i && b < n ==> self@[a].code < self@[b].code,
            decreases n - i,
        {
            assert(self@[i - 1].code == self.keys@[i - 1].code);
            assert(self@[i as int].code == self.keys@[i as int].code);
            if self.keys[i - 1].code >= self.keys[i].code {
                return false;
            }
            i = i + 1;
        }
        true
    }
}

} // verus!
