//! Fonts: the symbols that a display can show, each with the picture that
//! stands for it.

use vstd::prelude::*;
use vstd::string::*;

verus! {

pub const TIP_LOOK: &'static str = "'look' must contain textures for every symbol in 'order'";

pub const TIP_ORDER: &'static str = "'order' must contain every symbol in 'look'";

/// The number of bytes that a character takes in a text.
pub open spec fn utf8_len(c: char) -> int {
    if (c as u32) < 0x80 {
        1
    } else if (c as u32) < 0x800 {
        2
    } else if (c as u32) < 0x10000 {
        3
    } else {
        4
    }
}

/// The number of bytes that a text takes.
pub open spec fn bytes_of(text: Seq<char>) -> int
    decreases text.len(),
{
    if text.len() == 0 {
        0
    } else {
        bytes_of(text.drop_last()) + utf8_len(text.last())
    }
}

/// The place of the last `symbol` in the text, counted in characters.
pub open spec fn last_place(text: Seq<char>, symbol: char) -> Option<int>
    decreases text.len(),
{
    if text.len() == 0 {
        None
    } else if text.last() == symbol {
        Some(text.len() - 1)
    } else {
        last_place(text.drop_last(), symbol)
    }
}

/// The place of the last `symbol` in the text, counted in bytes.
pub open spec fn last_byte_place(text: Seq<char>, symbol: char) -> Option<int> {
    match last_place(text, symbol) {
        Some(i) => Some(bytes_of(text.take(i))),
        None => None,
    }
}

/// The rows of a picture, one after the other.
pub open spec fn flat(rows: Seq<Seq<bool>>) -> Seq<bool>
    decreases rows.len(),
{
    if rows.len() == 0 {
        Seq::empty()
    } else {
        flat(rows.drop_last()) + rows.last()
    }
}

/// The views of the rows of a picture.
pub open spec fn rows_view(rows: Seq<Vec<bool>>) -> Seq<Seq<bool>> {
    Seq::new(rows.len(), |i: int| rows[i]@)
}

/// The pictures that were given, each with its symbol and row after row.
pub open spec fn looks_view(look: Seq<(char, Vec<Vec<bool>>)>) -> Seq<(char, Seq<bool>)> {
    Seq::new(look.len(), |i: int| (look[i].0, flat(rows_view(look[i].1@))))
}

/// The views of the pictures of a font.
pub open spec fn textures_view(textures: Seq<(char, Vec<bool>)>) -> Seq<(char, Seq<bool>)> {
    Seq::new(textures.len(), |i: int| (textures[i].0, textures[i].1@))
}

/// The place of the picture of `symbol`: that of the last one that was
/// given for it.
pub open spec fn texture_place(textures: Seq<(char, Seq<bool>)>, symbol: char) -> Option<int>
    decreases textures.len(),
{
    if textures.len() == 0 {
        None
    } else if textures.last().0 == symbol {
        Some(textures.len() - 1)
    } else {
        texture_place(textures.drop_last(), symbol)
    }
}

/// The picture of `symbol`: the last one that was given for it.
pub open spec fn texture_of(textures: Seq<(char, Seq<bool>)>, symbol: char) -> Option<Seq<bool>> {
    match texture_place(textures, symbol) {
        Some(i) => Some(textures[i].1),
        None => None,
    }
}

/// A found place is a place of the list, and the picture there is that of
/// the symbol; where none is found, no picture is that of the symbol.
pub proof fn lemma_texture_place(textures: Seq<(char, Seq<bool>)>, symbol: char)
    ensures
        texture_place(textures, symbol) matches Some(i) ==> 0 <= i < textures.len() && textures[i].0
            == symbol,
        texture_place(textures, symbol) is None ==> forall|i: int|
            0 <= i < textures.len() ==> (#[trigger] textures[i]).0 != symbol,
    decreases textures.len(),
{
    if textures.len() > 0 && textures.last().0 != symbol {
        let head = textures.drop_last();
        lemma_texture_place(head, symbol);
        if texture_place(textures, symbol) is None {
            assert forall|i: int| 0 <= i < textures.len() implies (#[trigger] textures[i]).0
                != symbol by {
                if i < head.len() {
                    assert(head[i] == textures[i]);
                }
            }
        }
    }
}

/// A part of a text takes no more bytes than the text.
pub proof fn lemma_bytes_grow(text: Seq<char>, i: int)
    requires
        0 <= i <= text.len(),
    ensures
        0 <= bytes_of(text.take(i)) <= bytes_of(text),
    decreases text.len() - i,
{
    lemma_bytes_positive(text.take(i));
    if i < text.len() {
        lemma_bytes_grow(text, i + 1);
        assert(text.take(i + 1).drop_last() =~= text.take(i));
    } else {
        assert(text.take(i) =~= text);
    }
}

/// A text takes no negative number of bytes.
pub proof fn lemma_bytes_positive(text: Seq<char>)
    ensures
        0 <= bytes_of(text),
    decreases text.len(),
{
    if text.len() > 0 {
        lemma_bytes_positive(text.drop_last());
    }
}

/// What a font is: its symbols in their order, the size of a picture, and
/// the pictures that were given, each with its symbol.
pub struct FontView {
    pub order: Seq<char>,
    pub width: u32,
    pub height: u32,
    pub textures: Seq<(char, Seq<bool>)>,
}

/// The symbols that a display can show, in a fixed order, and the picture
/// of each.
#[derive(Debug)]
pub struct Font {
    chars_order: String,
    symbol_width: u32,
    symbol_height: u32,
    // Textures for each symbol
    textures: Vec<(char, Vec<bool>)>,
}

impl View for Font {
    type V = FontView;

    closed spec fn view(&self) -> FontView {
        FontView {
            order: self.chars_order@,
            width: self.symbol_width,
            height: self.symbol_height,
            textures: textures_view(self.textures@),
        }
    }
}

/// The number of bytes that the character takes in a text.
pub fn char_width(c: char) -> (w: usize)
    ensures
        w == utf8_len(c),
{
    let code = c as u32;
    if code < 0x80 {
        1
    } else if code < 0x800 {
        2
    } else if code < 0x10000 {
        3
    } else {
        4
    }
}

/// Tells whether the text holds the symbol.
pub fn text_has(text: &String, symbol: char) -> (has: bool)
    ensures
        has == text@.contains(symbol),
{
    let chars = text.as_str();
    let n = chars.unicode_len();
    let mut i: usize = 0;
    while i < n
        invariant
            i <= n,
            n == text@.len(),
            chars@ == text@,
            forall|j: int| 0 <= j < i ==> text@[j] != symbol,
        decreases n - i,
    {
        if chars.get_char(i) == symbol {
            proof {
                assert(text@[i as int] == symbol);
            }
            return true;
        }
        i += 1;
    }
    false
}

/// Tells whether the bytes of the text can be counted: a text in memory
/// always can.
pub fn text_fits(text: &String) -> (fits: bool)
    ensures
        fits == (bytes_of(text@) <= usize::MAX),
{
    let chars = text.as_str();
    let n = chars.unicode_len();
    let mut bytes: u128 = 0;
    let mut i: usize = 0;
    proof {
        assert(text@.take(0) =~= Seq::<char>::empty());
    }
    while i < n
        invariant
            i <= n,
            n == text@.len(),
            chars@ == text@,
            bytes == bytes_of(text@.take(i as int)),
            bytes <= 4 * i,
        decreases n - i,
    {
        proof {
            assert(text@.take(i + 1).drop_last() =~= text@.take(i as int));
        }
        bytes = bytes + char_width(chars.get_char(i)) as u128;
        i += 1;
    }
    proof {
        assert(text@.take(n as int) =~= text@);
    }
    bytes <= usize::MAX as u128
}

/// Puts the rows of a picture one after the other.
pub fn flatten(rows: &Vec<Vec<bool>>) -> (out: Vec<bool>)
    ensures
        out@ == flat(rows_view(rows@)),
{
    let ghost all = rows_view(rows@);
    let mut out: Vec<bool> = Vec::new();
    let mut i: usize = 0;
    proof {
        assert(all.take(0) =~= Seq::<Seq<bool>>::empty());
    }
    while i < rows.len()
        invariant
            i <= rows.len(),
            all == rows_view(rows@),
            out@ == flat(all.take(i as int)),
        decreases rows.len() - i,
    {
        let ghost done = out@;
        let row = &rows[i];
        let mut k: usize = 0;
        while k < row.len()
            invariant
                k <= row.len(),
                out@ == done + row@.take(k as int),
            decreases row.len() - k,
        {
            out.push(row[k]);
            proof {
                assert(out@ =~= done + row@.take(k + 1));
            }
            k += 1;
        }
        proof {
            assert(row@.take(row.len() as int) =~= row@);
            assert(all.take(i + 1).drop_last() =~= all.take(i as int));
            assert(all.take(i + 1).last() == row@);
        }
        i += 1;
    }
    proof {
        assert(all.take(rows.len() as int) =~= all);
    }
    out
}

/// The place of the last picture that was given for `symbol`.
fn find_texture(textures: &Vec<(char, Vec<bool>)>, symbol: char) -> (found: Option<usize>)
    ensures
        match found {
            Some(i) => Some(i as int),
            None => None,
        } == texture_place(textures_view(textures@), symbol),
        found matches Some(i) ==> i < textures.len(),
{
    let ghost all = textures_view(textures@);
    let mut i: usize = textures.len();
    proof {
        assert(all.take(i as int) =~= all);
    }
    while i > 0
        invariant
            i <= textures.len(),
            all == textures_view(textures@),
            texture_place(all, symbol) == texture_place(all.take(i as int), symbol),
        decreases i,
    {
        proof {
            assert(all.take(i as int).last() == all[i - 1]);
            assert(all.take(i as int).drop_last() =~= all.take(i - 1));
        }
        if textures[i - 1].0 == symbol {
            return Some(i - 1);
        }
        i -= 1;
    }
    None
}

impl FontView {
    /// Every symbol has a picture, and every picture is that of a symbol.
    pub open spec fn complete(self) -> bool {
        &&& forall|i: int| 0 <= i < self.textures.len() ==> self.order.contains(
            (#[trigger] self.textures[i]).0,
        )
        &&& forall|k: int|
            0 <= k < self.order.len() ==> texture_place(self.textures, #[trigger] self.order[k]) is Some
    }
}

impl Font {
    #[verifier::type_invariant]
    spec fn inv(self) -> bool {
        bytes_of(self.chars_order@) <= usize::MAX
    }

    /// Makes a font of the symbols of `order` and of the pictures of
    /// `look`, each given with its symbol and row by row. Where a symbol
    /// is given several pictures, the last one counts. Fails if a picture
    /// is given for a symbol that `order` does not hold, and otherwise if
    /// a symbol of `order` has no picture.
    pub fn new(look: Vec<(char, Vec<Vec<bool>>)>, order: String, symbol_width: u32, symbol_height: u32) -> (made:
        Result<Font, String>)
        requires
            bytes_of(order@) <= usize::MAX,
        ensures
            made is Ok <==> (FontView {
                order: order@,
                width: symbol_width,
                height: symbol_height,
                textures: looks_view(look@),
            }).complete(),
            made matches Ok(font) ==> font@ == (FontView {
                order: order@,
                width: symbol_width,
                height: symbol_height,
                textures: looks_view(look@),
            }),
            made matches Err(tip) ==> tip@ == if exists|i: int|
                0 <= i < look.len() && !order@.contains((#[trigger] look@[i]).0) {
                TIP_LOOK@
            } else {
                TIP_ORDER@
            },
    {
        let ghost all = looks_view(look@);
        let mut textures: Vec<(char, Vec<bool>)> = Vec::new();
        let mut i: usize = 0;
        while i < look.len()
            invariant
                i <= look.len(),
                all == looks_view(look@),
                textures.len() == i,
                textures_view(textures@) == all.take(i as int),
                forall|j: int| 0 <= j < i ==> order@.contains((#[trigger] look@[j]).0),
            decreases look.len() - i,
        {
            let symbol = look[i].0;
            if !text_has(&order, symbol) {
                proof {
                    assert(!order@.contains(look@[i as int].0));
                    assert(all[i as int].0 == look@[i as int].0);
                }
                return Err(TIP_LOOK.to_owned());
            }
            let ghost before = textures@;
            textures.push((symbol, flatten(&look[i].1)));
            proof {
                assert(textures_view(textures@) =~= all.take(i + 1)) by {
                    assert forall|j: int| 0 <= j < i + 1 implies textures_view(textures@)[j]
                        == all.take(i + 1)[j] by {
                        if j < i {
                            assert(textures@[j] == before[j]);
                            assert(textures_view(before)[j] == all.take(i as int)[j]);
                        }
                    }
                }
            }
            i += 1;
        }
        proof {
            assert(all.take(look.len() as int) =~= all);
            assert forall|j: int| 0 <= j < all.len() implies order@.contains(
                (#[trigger] all[j]).0,
            ) by {
                assert(order@.contains(look@[j].0));
            }
        }
        let chars = order.as_str();
        let n = chars.unicode_len();
        let mut k: usize = 0;
        while k < n
            invariant
                k <= n,
                n == order@.len(),
                chars@ == order@,
                textures_view(textures@) == all,
                all == looks_view(look@),
                forall|j: int| 0 <= j < look.len() ==> order@.contains((#[trigger] look@[j]).0),
                forall|j: int| 0 <= j < k ==> texture_place(all, #[trigger] order@[j]) is Some,
            decreases n - k,
        {
            if find_texture(&textures, chars.get_char(k)).is_none() {
                proof {
                    let view = FontView {
                        order: order@,
                        width: symbol_width,
                        height: symbol_height,
                        textures: all,
                    };
                    assert(texture_place(view.textures, view.order[k as int]) is None);
                }
                return Err(TIP_ORDER.to_owned());
            }
            k += 1;
        }
        Ok(Font { chars_order: order, symbol_width, symbol_height, textures })
    }

    /// The symbols of the font, in their order.
    pub fn all_symbols(&self) -> (symbols: &String)
        ensures
            symbols@ == self@.order,
    {
        &self.chars_order
    }

    /// The width and the height of a picture.
    pub fn symbol_size(&self) -> (size: (u32, u32))
        ensures
            size == (self@.width, self@.height),
    {
        (self.symbol_width, self.symbol_height)
    }

    /// The place of the symbol among the symbols of the font: that of its
    /// last occurrence, counted in bytes.
    pub fn symbol_id(&self, symbol: char) -> (id: Option<usize>)
        ensures
            match id {
                Some(i) => Some(i as int),
                None => None,
            } == last_byte_place(self@.order, symbol),
            id is Some <==> self@.order.contains(symbol),
    {
        proof {
            use_type_invariant(self);
        }
        let ghost text = self.chars_order@;
        let chars = self.chars_order.as_str();
        let n = chars.unicode_len();
        let mut found: Option<usize> = None;
        let mut bytes: usize = 0;
        let mut i: usize = 0;
        proof {
            assert(text.take(0) =~= Seq::<char>::empty());
        }
        while i < n
            invariant
                i <= n,
                n == text.len(),
                chars@ == text,
                bytes_of(text) <= usize::MAX,
                bytes == bytes_of(text.take(i as int)),
                match found {
                    Some(at) => Some(at as int),
                    None => None,
                } == match last_place(text.take(i as int), symbol) {
                    Some(j) => Some(bytes_of(text.take(j))),
                    None => None,
                },
                found is Some <==> text.take(i as int).contains(symbol),
            decreases n - i,
        {
            let ghost seen = text.take(i as int);
            let ghost next = text.take(i + 1);
            proof {
                assert(next.drop_last() =~= seen);
                assert(next.last() == text[i as int]);
                lemma_bytes_grow(text, i + 1);
                assert(next =~= seen.push(text[i as int]));
            }
            let c = chars.get_char(i);
            if c == symbol {
                found = Some(bytes);
                proof {
                    assert(next[i as int] == symbol);
                }
            } else {
                proof {
                    if next.contains(symbol) {
                        let j = choose|j: int| 0 <= j < next.len() && next[j] == symbol;
                        assert(seen[j] == symbol);
                    }
                    if seen.contains(symbol) {
                        let j = choose|j: int| 0 <= j < seen.len() && seen[j] == symbol;
                        assert(next[j] == symbol);
                    }
                }
            }
            bytes = bytes + char_width(c);
            i += 1;
        }
        proof {
            assert(text.take(n as int) =~= text);
        }
        found
    }

    /// The picture of the symbol, row after row.
    pub fn symbol_texture(&self, symbol: char) -> (texture: Option<&Vec<bool>>)
        ensures
            match texture {
                Some(t) => Some(t@),
                None => None,
            } == texture_of(self@.textures, symbol),
    {
        match find_texture(&self.textures, symbol) {
            Some(i) => Some(&self.textures[i].1),
            None => None,
        }
    }
}

/// A found place is a place of the text, and the symbol stands there.
pub proof fn lemma_last_place(text: Seq<char>, symbol: char)
    ensures
        last_place(text, symbol) matches Some(i) ==> 0 <= i < text.len() && text[i] == symbol,
    decreases text.len(),
{
    if text.len() > 0 && text.last() != symbol {
        lemma_last_place(text.drop_last(), symbol);
    }
}

} // verus!
