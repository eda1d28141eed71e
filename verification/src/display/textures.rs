use std::collections::HashMap;
use vstd::prelude::*;
use vstd::string::*;

verus! {

broadcast use vstd::std_specs::hash::group_hash_axioms;

/// A colour: red, green, blue and alpha.
#[derive(Clone, Copy, Debug, PartialEq, Eq, Structural)]
pub struct Color {
    pub r: u8,
    pub g: u8,
    pub b: u8,
    pub a: u8,
}

/// What a texture code stands for: a plain colour, or an image that the
/// renderer samples, held as a handle of type `T`.
pub enum TextureType<T> {
    Color(Color),
    Texture(T),
}

impl<T: Clone> Clone for TextureType<T> {
    fn clone(&self) -> (r: Self)
        ensures
            match *self {
                TextureType::Color(c) => r == TextureType::<T>::Color(c),
                TextureType::Texture(t) => r is Texture && cloned(t, r->Texture_0),
            },
    {
        match self {
            TextureType::Color(c) => TextureType::Color(*c),
            TextureType::Texture(t) => TextureType::Texture(t.clone()),
        }
    }
}

/// The text of one decimal digit.
pub open spec fn digit_text(d: int) -> Seq<char> {
    if d == 0 {
        "0"@
    } else if d == 1 {
        "1"@
    } else if d == 2 {
        "2"@
    } else if d == 3 {
        "3"@
    } else if d == 4 {
        "4"@
    } else if d == 5 {
        "5"@
    } else if d == 6 {
        "6"@
    } else if d == 7 {
        "7"@
    } else if d == 8 {
        "8"@
    } else {
        "9"@
    }
}

/// The decimal text of `n`, without leading zeros.
pub open spec fn decimal(n: nat) -> Seq<char>
    decreases n,
{
    if n < 10 {
        digit_text(n as int)
    } else {
        decimal(n / 10) + digit_text((n % 10) as int)
    }
}

/// The text of a colour, as its debug form prints it.
pub open spec fn color_text(c: Color) -> Seq<char> {
    "Color { r: "@ + decimal(c.r as nat) + ", g: "@ + decimal(c.g as nat) + ", b: "@ + decimal(
        c.b as nat,
    ) + ", a: "@ + decimal(c.a as nat) + " }"@
}

/// How a refusal begins: it names the code that is taken.
pub open spec fn taken_prefix(code: u8) -> Seq<char> {
    "the code "@ + decimal(code as nat) + " is already used for "@
}

/// The refusal given when `code` already stands for the colour `c`.
pub open spec fn taken_by_color(code: u8, c: Color) -> Seq<char> {
    taken_prefix(code) + "the color "@ + color_text(c)
}

/// The refusal `add_texture` gives when `code` already stands for an image.
pub open spec fn texture_taken_by_texture(code: u8) -> Seq<char> {
    taken_prefix(code) + "a texute"@
}

/// The refusal `add_color` gives when `code` already stands for an image.
pub open spec fn color_taken_by_texture(code: u8) -> Seq<char> {
    taken_prefix(code) + "a texture"@
}

fn digit(d: u8) -> (s: &'static str)
    requires
        d < 10,
    ensures
        s@ == digit_text(d as int),
{
    if d == 0 {
        "0"
    } else if d == 1 {
        "1"
    } else if d == 2 {
        "2"
    } else if d == 3 {
        "3"
    } else if d == 4 {
        "4"
    } else if d == 5 {
        "5"
    } else if d == 6 {
        "6"
    } else if d == 7 {
        "7"
    } else if d == 8 {
        "8"
    } else {
        "9"
    }
}

fn append_decimal(s: &mut String, n: u8)
    ensures
        final(s)@ == old(s)@ + decimal(n as nat),
{
    reveal_with_fuel(decimal, 3);
    if n >= 100 {
        s.append(digit(n / 100));
    }
    if n >= 10 {
        s.append(digit((n / 10) % 10));
    }
    s.append(digit(n % 10));
    assert(s@ =~= old(s)@ + decimal(n as nat));
}

fn append_color(s: &mut String, c: Color)
    ensures
        final(s)@ == old(s)@ + color_text(c),
{
    s.append("Color { r: ");
    append_decimal(s, c.r);
    s.append(", g: ");
    append_decimal(s, c.g);
    s.append(", b: ");
    append_decimal(s, c.b);
    s.append(", a: ");
    append_decimal(s, c.a);
    s.append(" }");
    assert(s@ =~= old(s)@ + color_text(c));
}

fn taken_message(code: u8) -> (s: String)
    ensures
        s@ == taken_prefix(code),
{
    let mut s = String::from_str("the code ");
    append_decimal(&mut s, code);
    s.append(" is already used for ");
    s
}

fn color_message(code: u8, c: Color) -> (s: String)
    ensures
        s@ == taken_by_color(code, c),
{
    let mut s = taken_message(code);
    s.append("the color ");
    append_color(&mut s, c);
    assert(s@ =~= taken_by_color(code, c));
    s
}

/// The registry of textures: what each texture code stands for.
pub struct TextureMap<T> {
    map: HashMap<u8, TextureType<T>>,
}

impl<T> View for TextureMap<T> {
    type V = Map<u8, TextureType<T>>;

    /// The registered codes, each with what it stands for.
    closed spec fn view(&self) -> Map<u8, TextureType<T>> {
        self.map@
    }
}

impl<T: Clone> Clone for TextureMap<T> {
    fn clone(&self) -> (r: Self)
        ensures
            r@ == self@,
    {
        TextureMap { map: self.map.clone() }
    }
}

impl<T> TextureMap<T> {
    /// The registry with no code in it.
    pub fn new() -> (r: Self)
        ensures
            r@ == Map::<u8, TextureType<T>>::empty(),
    {
        TextureMap { map: HashMap::new() }
    }

    /// Registers `code` for the image `texture`. A code that is taken stays
    /// as it is, and the refusal says what holds it.
    pub fn add_texture(&mut self, code: u8, texture: T) -> (r: Result<(), String>)
        ensures
            !old(self)@.contains_key(code) ==> r is Ok && final(self)@ == old(self)@.insert(
                code,
                TextureType::Texture(texture),
            ),
            old(self)@.contains_key(code) ==> r is Err && final(self)@ == old(self)@,
            old(self)@.contains_key(code) ==> match old(self)@[code] {
                TextureType::Color(c) => r->Err_0@ == taken_by_color(code, c),
                TextureType::Texture(_) => r->Err_0@ == texture_taken_by_texture(code),
            },
    {
        match self.map.get(&code) {
            Some(TextureType::Color(c)) => {
                return Err(color_message(code, *c));
            },
            Some(TextureType::Texture(_)) => {
                let mut s = taken_message(code);
                s.append("a texute");
                return Err(s);
            },
            None => {},
        }
        self.map.insert(code, TextureType::Texture(texture));
        Ok(())
    }

    /// Registers `code` for the colour `color`. A code that is taken stays
    /// as it is, and the refusal says what holds it.
    pub fn add_color(&mut self, code: u8, color: Color) -> (r: Result<(), String>)
        ensures
            !old(self)@.contains_key(code) ==> r is Ok && final(self)@ == old(self)@.insert(
                code,
                TextureType::Color(color),
            ),
            old(self)@.contains_key(code) ==> r is Err && final(self)@ == old(self)@,
            old(self)@.contains_key(code) ==> match old(self)@[code] {
                TextureType::Color(c) => r->Err_0@ == taken_by_color(code, c),
                TextureType::Texture(_) => r->Err_0@ == color_taken_by_texture(code),
            },
    {
        match self.map.get(&code) {
            Some(TextureType::Color(c)) => {
                return Err(color_message(code, *c));
            },
            Some(TextureType::Texture(_)) => {
                let mut s = taken_message(code);
                s.append("a texture");
                return Err(s);
            },
            None => {},
        }
        self.map.insert(code, TextureType::Color(color));
        Ok(())
    }

    /// What `code` stands for, if it is registered.
    pub fn get(&self, code: u8) -> (r: Option<&TextureType<T>>)
        ensures
            match r {
                Some(t) => self@.contains_key(code) && *t == self@[code],
                None => !self@.contains_key(code),
            },
    {
        self.map.get(&code)
    }

    /// Whether `code` is registered.
    pub fn contains(&self, code: u8) -> (r: bool)
        ensures
            r == self@.contains_key(code),
    {
        self.map.contains_key(&code)
    }
}

} // verus!
