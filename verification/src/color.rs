//! A color choice that is mirrored to a persistent key-value store.
//!
//! The widget keeps the current color in memory. When it is mounted it takes
//! the color that the store holds under the key `color`, or a default where
//! there is none. Every later choice replaces the color in memory and, where
//! a store is at hand, is written back under the same key.
//!
//! The store itself is out of reach from here. The application asks it and
//! hands in the answer as a [`Lookup`]; a change comes back with the
//! [`StoreWrite`] that the application has to carry out. A write that fails
//! must not go unnoticed: the application stops on it.

use vstd::prelude::*;
use vstd::string::*;

verus! {

/// The color of a widget that found none in the store: `#ff0000`.
pub open spec fn default_color() -> Seq<char> {
    seq!['#', 'f', 'f', '0', '0', '0', '0']
}

/// The key under which the store holds the color: `color`.
pub open spec fn color_key() -> Seq<char> {
    seq!['c', 'o', 'l', 'o', 'r']
}

/// What comes before the color in a style declaration: `color: `.
pub open spec fn style_prefix() -> Seq<char> {
    seq!['c', 'o', 'l', 'o', 'r', ':', ' ']
}

/// The style declaration that shows `color`.
pub open spec fn style_of(color: Seq<char>) -> Seq<char> {
    style_prefix() + color
}

/// Whether `c` is a hexadecimal digit, in either case.
pub open spec fn is_hex_digit(c: char) -> bool {
    let n = c as u32;
    ||| 0x30 <= n <= 0x39
    ||| 0x41 <= n <= 0x46
    ||| 0x61 <= n <= 0x66
}

/// Whether `s` is a color in the form `#RRGGBB`.
pub open spec fn is_hex_color(s: Seq<char>) -> bool {
    &&& s.len() == 7
    &&& s[0] == '#'
    &&& forall|i: int| 1 <= i < 7 ==> is_hex_digit(#[trigger] s[i])
}

/// The answer to a lookup of the color key, as contracts see it.
pub enum Answer {
    NoStore,
    Failed,
    Absent,
    Found(Seq<char>),
}

/// What became of a lookup of the color key in the persistent store.
#[derive(Debug)]
pub enum Lookup {
    /// The context has no store, so none was asked.
    NoStore,
    /// There is a store, but it could not be read.
    Failed,
    /// The store holds nothing under the key.
    Absent,
    /// The store holds this value under the key.
    Found(String),
}

impl View for Lookup {
    type V = Answer;

    open spec fn view(&self) -> Answer {
        match self {
            Lookup::NoStore => Answer::NoStore,
            Lookup::Failed => Answer::Failed,
            Lookup::Absent => Answer::Absent,
            Lookup::Found(value) => Answer::Found(value@),
        }
    }
}

/// The color that a widget starts with after the store gave `answer`: the
/// value found, and the default in every other case.
pub open spec fn initial_color(answer: Answer) -> Seq<char> {
    match answer {
        Answer::Found(value) => value,
        _ => default_color(),
    }
}

/// A write of `value` under `key` that is to be carried out on the store.
#[derive(Debug)]
pub struct StoreWrite {
    pub key: String,
    pub value: String,
}

impl View for StoreWrite {
    type V = (Seq<char>, Seq<char>);

    open spec fn view(&self) -> (Seq<char>, Seq<char>) {
        (self.key@, self.value@)
    }
}

/// The write that a change of the color to `color` asks for: the color
/// under the color key where there is a store, none where there is not.
pub open spec fn requested_write(color: Seq<char>, store_available: bool) -> Option<
    (Seq<char>, Seq<char>),
> {
    if store_available {
        Some((color_key(), color))
    } else {
        None
    }
}

/// The answer that a working store gives when it is asked for the color
/// key. `None` stands for a context that has no store.
pub open spec fn store_answer(store: Option<Map<Seq<char>, Seq<char>>>) -> Answer {
    match store {
        None => Answer::NoStore,
        Some(entries) => if entries.dom().contains(color_key()) {
            Answer::Found(entries[color_key()])
        } else {
            Answer::Absent
        },
    }
}

/// The store after `write` has been carried out on it.
pub open spec fn store_after(
    store: Option<Map<Seq<char>, Seq<char>>>,
    write: Option<(Seq<char>, Seq<char>)>,
) -> Option<Map<Seq<char>, Seq<char>>> {
    match (store, write) {
        (Some(entries), Some((key, value))) => Some(entries.insert(key, value)),
        _ => store,
    }
}

/// A widget together with the store that it is mirrored to, as contracts
/// see the two. `store` is `None` in a context that has no store.
pub struct Mirrored {
    pub color: Seq<char>,
    pub store: Option<Map<Seq<char>, Seq<char>>>,
}

impl Mirrored {
    /// A widget freshly mounted on `store`.
    pub open spec fn mounted(store: Option<Map<Seq<char>, Seq<char>>>) -> Mirrored {
        Mirrored { color: initial_color(store_answer(store)), store }
    }

    /// The widget and its store after the color was set to `color` and the
    /// write that this asked for was carried out.
    pub open spec fn set(self, color: Seq<char>) -> Mirrored {
        Mirrored {
            color,
            store: store_after(self.store, requested_write(color, self.store is Some)),
        }
    }
}

/// A widget mounted on an empty store, or without a store, shows the
/// default color.
pub proof fn lemma_mounted_without_entry()
    ensures
        Mirrored::mounted(Some(Map::empty())).color == default_color(),
        Mirrored::mounted(None).color == default_color(),
{
}

/// A color that was set is the color of the widget, is what the store holds
/// under the color key, and is what a widget mounted on that store
/// afterwards starts with.
pub proof fn lemma_set_then_mounted(before: Mirrored, color: Seq<char>)
    requires
        before.store is Some,
    ensures
        before.set(color).color == color,
        before.set(color).store is Some,
        before.set(color).store->0.dom().contains(color_key()),
        before.set(color).store->0[color_key()] == color,
        Mirrored::mounted(before.set(color).store).color == color,
{
}

/// Without a store a color that was set is the color of the widget, nothing
/// is written, and a widget mounted afterwards starts with the default.
pub proof fn lemma_set_without_store(before: Mirrored, color: Seq<char>)
    requires
        before.store is None,
    ensures
        before.set(color).color == color,
        before.set(color).store is None,
        Mirrored::mounted(before.set(color).store).color == default_color(),
{
}

/// Setting the same color twice in a row leaves the widget and the store as
/// setting it once does.
pub proof fn lemma_set_twice(before: Mirrored, color: Seq<char>)
    ensures
        before.set(color).set(color) == before.set(color),
{
    match before.store {
        Some(entries) => {
            let once = entries.insert(color_key(), color);
            assert(once.insert(color_key(), color) =~= once);
        },
        None => {},
    }
}

/// The default is a color of the form `#RRGGBB`, and a widget whose store
/// and choices hold only such colors never shows anything else.
pub proof fn lemma_hex_color_kept(answer: Answer, before: Mirrored, color: Seq<char>)
    requires
        answer matches Answer::Found(value) ==> is_hex_color(value),
        is_hex_color(color),
    ensures
        is_hex_color(default_color()),
        is_hex_color(initial_color(answer)),
        is_hex_color(before.set(color).color),
{
}

/// The default color as a string.
pub fn default_color_string() -> (s: String)
    ensures
        s@ == default_color(),
{
    proof {
        reveal_strlit("#ff0000");
    }
    let s = String::from_str("#ff0000");
    assert(s@ =~= default_color());
    s
}

/// The key of the color in the store as a string.
pub fn color_key_string() -> (s: String)
    ensures
        s@ == color_key(),
{
    proof {
        reveal_strlit("color");
    }
    let s = String::from_str("color");
    assert(s@ =~= color_key());
    s
}

/// Writes the style declaration that shows `color`.
pub fn style_for(color: &str) -> (s: String)
    ensures
        s@ == style_of(color@),
{
    proof {
        reveal_strlit("color: ");
    }
    let mut s = String::from_str("color: ");
    assert(s@ =~= style_prefix());
    s.append(color);
    s
}

/// The color that a widget currently shows.
#[derive(Debug)]
pub struct ColorState {
    color: String,
}

impl View for ColorState {
    type V = Seq<char>;

    closed spec fn view(&self) -> Seq<char> {
        self.color@
    }
}

impl ColorState {
    /// A widget with the default color, as it is before any store was asked.
    pub fn new() -> (state: ColorState)
        ensures
            state@ == default_color(),
    {
        ColorState { color: default_color_string() }
    }

    /// A widget as it is mounted: with the color that the lookup found, or
    /// the default where it found none.
    pub fn initialize(lookup: Lookup) -> (state: ColorState)
        ensures
            state@ == initial_color(lookup@),
    {
        match lookup {
            Lookup::Found(value) => ColorState { color: value },
            _ => ColorState::new(),
        }
    }

    /// The current color.
    pub fn color(&self) -> (c: &str)
        ensures
            c@ == self@,
    {
        self.color.as_str()
    }

    /// Makes `new_color` the current color, whether there is a store or not,
    /// and returns the write that mirrors it to the store where there is one.
    pub fn set_color(&mut self, new_color: &str, store_available: bool) -> (write: Option<
        StoreWrite,
    >)
        ensures
            final(self)@ == new_color@,
            match write {
                Some(w) => Some(w@),
                None => None,
            } == requested_write(new_color@, store_available),
    {
        self.color = String::from_str(new_color);
        if store_available {
            Some(StoreWrite { key: color_key_string(), value: String::from_str(new_color) })
        } else {
            None
        }
    }

    /// Writes the style declaration that shows the current color.
    pub fn style(&self) -> (s: String)
        ensures
            s@ == style_of(self@),
    {
        style_for(self.color.as_str())
    }
}

} // verus!
