//! Colours: their channels, finishes and materials, the catalog that LDraw
//! colour codes are looked up in, and how a code resolves to a colour.

use std::collections::HashMap;
use vstd::prelude::*;

use crate::number::{decimal, hexadecimal, push_decimal, push_hexadecimal_padded, zero_padded, Decimal};

verus! {

/// Red, green, blue and alpha channels of eight bits each.
#[derive(Clone, Copy, Debug, PartialEq)]
pub struct Rgba {
    value: [u8; 4],
}

impl View for Rgba {
    /// `(red, green, blue, alpha)`
    type V = (u8, u8, u8, u8);

    closed spec fn view(&self) -> (u8, u8, u8, u8) {
        (self.value@[0], self.value@[1], self.value@[2], self.value@[3])
    }
}

/// The channels of the packed value `0xAARRGGBB`.
pub open spec fn channels_of(value: u32) -> (u8, u8, u8, u8) {
    (
        ((value / 0x1_0000) % 0x100) as u8,
        ((value / 0x100) % 0x100) as u8,
        (value % 0x100) as u8,
        (value / 0x100_0000) as u8,
    )
}

impl Rgba {
    pub fn new(r: u8, g: u8, b: u8, a: u8) -> (res: Rgba)
        ensures
            res@ == (r, g, b, a),
    {
        Rgba { value: [r, g, b, a] }
    }

    /// The colour packed as `0xAARRGGBB`.
    pub fn from_value(value: u32) -> (res: Rgba)
        ensures
            res@ == channels_of(value),
    {
        let r = ((value & 0x00ff_0000) >> 16) as u8;
        let g = ((value & 0x0000_ff00) >> 8) as u8;
        let b = (value & 0x0000_00ff) as u8;
        let a = ((value & 0xff00_0000) >> 24) as u8;
        assert(r == ((value / 0x1_0000) % 0x100) as u8) by (bit_vector)
            requires
                r == ((value & 0x00ff_0000) >> 16) as u8,
        ;
        assert(g == ((value / 0x100) % 0x100) as u8) by (bit_vector)
            requires
                g == ((value & 0x0000_ff00) >> 8) as u8,
        ;
        assert(b == (value % 0x100) as u8) by (bit_vector)
            requires
                b == (value & 0x0000_00ff) as u8,
        ;
        assert(a == (value / 0x100_0000) as u8) by (bit_vector)
            requires
                a == ((value & 0xff00_0000) >> 24) as u8,
        ;
        Rgba { value: [r, g, b, a] }
    }

    pub fn red(self) -> (res: u8)
        ensures
            res == self@.0,
    {
        self.value[0]
    }

    pub fn green(self) -> (res: u8)
        ensures
            res == self@.1,
    {
        self.value[1]
    }

    pub fn blue(self) -> (res: u8)
        ensures
            res == self@.2,
    {
        self.value[2]
    }

    pub fn alpha(self) -> (res: u8)
        ensures
            res == self@.3,
    {
        self.value[3]
    }
}

/// The glitter material: specks of `value` over the colour. Its real-valued
/// fields keep the numbers as written (zero when absent).
#[derive(Debug, PartialEq)]
pub struct MaterialGlitter {
    pub value: Rgba,
    pub luminance: u8,
    pub fraction: Decimal,
    pub vfraction: Decimal,
    pub size: u32,
    pub minsize: Decimal,
    pub maxsize: Decimal,
}

/// The speckle material.
#[derive(Debug, PartialEq)]
pub struct MaterialSpeckle {
    pub value: Rgba,
    pub luminance: u8,
    pub fraction: Decimal,
    pub size: u32,
    pub minsize: Decimal,
    pub maxsize: Decimal,
}

#[derive(Debug, PartialEq)]
pub enum CustomizedMaterial {
    Glitter(MaterialGlitter),
    Speckle(MaterialSpeckle),
}

/// The finish of a colour.
#[derive(Debug, PartialEq)]
pub enum Material {
    Plastic,
    Chrome,
    Pearlescent,
    Rubber,
    MatteMetallic,
    Metal,
    Custom(CustomizedMaterial),
}

/// A colour of the catalog.
#[derive(Debug, PartialEq)]
pub struct Color {
    pub code: u32,
    pub name: String,
    pub color: Rgba,
    pub edge: Rgba,
    pub luminance: u8,
    pub material: Material,
}

pub struct SpecGlitter {
    pub value: (u8, u8, u8, u8),
    pub luminance: u8,
    pub fraction: Seq<char>,
    pub vfraction: Seq<char>,
    pub size: u32,
    pub minsize: Seq<char>,
    pub maxsize: Seq<char>,
}

pub struct SpecSpeckle {
    pub value: (u8, u8, u8, u8),
    pub luminance: u8,
    pub fraction: Seq<char>,
    pub size: u32,
    pub minsize: Seq<char>,
    pub maxsize: Seq<char>,
}

pub enum SpecCustomizedMaterial {
    Glitter(SpecGlitter),
    Speckle(SpecSpeckle),
}

pub enum SpecMaterial {
    Plastic,
    Chrome,
    Pearlescent,
    Rubber,
    MatteMetallic,
    Metal,
    Custom(SpecCustomizedMaterial),
}

pub struct SpecColor {
    pub code: u32,
    pub name: Seq<char>,
    pub color: (u8, u8, u8, u8),
    pub edge: (u8, u8, u8, u8),
    pub luminance: u8,
    pub material: SpecMaterial,
}

impl View for MaterialGlitter {
    type V = SpecGlitter;

    open spec fn view(&self) -> SpecGlitter {
        SpecGlitter {
            value: self.value@,
            luminance: self.luminance,
            fraction: self.fraction@,
            vfraction: self.vfraction@,
            size: self.size,
            minsize: self.minsize@,
            maxsize: self.maxsize@,
        }
    }
}

impl View for MaterialSpeckle {
    type V = SpecSpeckle;

    open spec fn view(&self) -> SpecSpeckle {
        SpecSpeckle {
            value: self.value@,
            luminance: self.luminance,
            fraction: self.fraction@,
            size: self.size,
            minsize: self.minsize@,
            maxsize: self.maxsize@,
        }
    }
}

impl View for CustomizedMaterial {
    type V = SpecCustomizedMaterial;

    open spec fn view(&self) -> SpecCustomizedMaterial {
        match self {
            CustomizedMaterial::Glitter(g) => SpecCustomizedMaterial::Glitter(g@),
            CustomizedMaterial::Speckle(s) => SpecCustomizedMaterial::Speckle(s@),
        }
    }
}

impl View for Material {
    type V = SpecMaterial;

    open spec fn view(&self) -> SpecMaterial {
        match self {
            Material::Plastic => SpecMaterial::Plastic,
            Material::Chrome => SpecMaterial::Chrome,
            Material::Pearlescent => SpecMaterial::Pearlescent,
            Material::Rubber => SpecMaterial::Rubber,
            Material::MatteMetallic => SpecMaterial::MatteMetallic,
            Material::Metal => SpecMaterial::Metal,
            Material::Custom(c) => SpecMaterial::Custom(c@),
        }
    }
}

impl View for Color {
    type V = SpecColor;

    open spec fn view(&self) -> SpecColor {
        SpecColor {
            code: self.code,
            name: self.name@,
            color: self.color@,
            edge: self.edge@,
            luminance: self.luminance,
            material: self.material@,
        }
    }
}

impl Clone for MaterialGlitter {
    fn clone(&self) -> (res: Self)
        ensures
            res == *self,
    {
        MaterialGlitter {
            value: self.value,
            luminance: self.luminance,
            fraction: self.fraction.clone(),
            vfraction: self.vfraction.clone(),
            size: self.size,
            minsize: self.minsize.clone(),
            maxsize: self.maxsize.clone(),
        }
    }
}

impl Clone for MaterialSpeckle {
    fn clone(&self) -> (res: Self)
        ensures
            res == *self,
    {
        MaterialSpeckle {
            value: self.value,
            luminance: self.luminance,
            fraction: self.fraction.clone(),
            size: self.size,
            minsize: self.minsize.clone(),
            maxsize: self.maxsize.clone(),
        }
    }
}

impl Clone for CustomizedMaterial {
    fn clone(&self) -> (res: Self)
        ensures
            res == *self,
    {
        match self {
            CustomizedMaterial::Glitter(g) => CustomizedMaterial::Glitter(g.clone()),
            CustomizedMaterial::Speckle(s) => CustomizedMaterial::Speckle(s.clone()),
        }
    }
}

impl Clone for Material {
    fn clone(&self) -> (res: Self)
        ensures
            res == *self,
    {
        match self {
            Material::Plastic => Material::Plastic,
            Material::Chrome => Material::Chrome,
            Material::Pearlescent => Material::Pearlescent,
            Material::Rubber => Material::Rubber,
            Material::MatteMetallic => Material::MatteMetallic,
            Material::Metal => Material::Metal,
            Material::Custom(c) => Material::Custom(c.clone()),
        }
    }
}

impl Clone for ColorReference {
    fn clone(&self) -> (res: Self)
        ensures
            res == *self,
    {
        match self {
            ColorReference::Unknown(c) => ColorReference::Unknown(*c),
            ColorReference::Current => ColorReference::Current,
            ColorReference::Complement => ColorReference::Complement,
            ColorReference::Color(c) => ColorReference::Color(c.clone()),
            ColorReference::Unresolved(c) => ColorReference::Unresolved(*c),
        }
    }
}

impl Clone for Color {
    fn clone(&self) -> (res: Self)
        ensures
            res == *self,
    {
        Color {
            code: self.code,
            name: self.name.clone(),
            color: self.color,
            edge: self.edge,
            luminance: self.luminance,
            material: self.material.clone(),
        }
    }
}

impl Default for Color {
    /// Black.
    fn default() -> (res: Self)
        ensures
            res@ == (SpecColor {
                code: 0,
                name: "Black"@,
                color: (0x05, 0x13, 0x1d, 0xff),
                edge: (0x59, 0x59, 0x59, 0xff),
                luminance: 0,
                material: SpecMaterial::Plastic,
            }),
    {
        Color {
            code: 0,
            name: String::from_str("Black"),
            color: Rgba::new(0x05, 0x13, 0x1d, 0xff),
            edge: Rgba::new(0x59, 0x59, 0x59, 0xff),
            luminance: 0x00,
            material: Material::Plastic,
        }
    }
}

impl Color {
    /// Whether the colour lets light through (its alpha is below 255).
    pub fn is_translucent(&self) -> (res: bool)
        ensures
            res == (self.color@.3 < 255),
    {
        self.color.alpha() < 255u8
    }
}

/// The colours of a colour definition file, by code.
pub type ColorCatalog = HashMap<u32, Color>;

/// The catalog as the model sees it.
pub open spec fn catalog_view(colors: &ColorCatalog) -> Map<u32, SpecColor> {
    colors@.map_values(|c: Color| c@)
}

/// The colour of an element: a code not (yet) looked up, the inherited
/// colours 16 and 24, or a colour.
#[derive(Debug)]
pub enum ColorReference {
    Unknown(u32),
    Current,
    Complement,
    Color(Color),
    Unresolved(u32),
}

pub enum SpecColorReference {
    Unknown(u32),
    Current,
    Complement,
    Color(SpecColor),
    Unresolved(u32),
}

impl View for ColorReference {
    type V = SpecColorReference;

    open spec fn view(&self) -> SpecColorReference {
        match self {
            ColorReference::Unknown(c) => SpecColorReference::Unknown(*c),
            ColorReference::Current => SpecColorReference::Current,
            ColorReference::Complement => SpecColorReference::Complement,
            ColorReference::Color(c) => SpecColorReference::Color(c@),
            ColorReference::Unresolved(c) => SpecColorReference::Unresolved(*c),
        }
    }
}

/// The code that a colour reference stands for.
pub open spec fn reference_code(r: SpecColorReference) -> u32 {
    match r {
        SpecColorReference::Unknown(c) => c,
        SpecColorReference::Current => 16,
        SpecColorReference::Complement => 24,
        SpecColorReference::Color(m) => m.code,
        SpecColorReference::Unresolved(c) => c,
    }
}

/// Half of each of two channels, added.
pub open spec fn mix(a: u8, b: u8) -> u8 {
    (a / 2 + b / 2) as u8
}

/// The colour mixed from colours `c1` and `c2` (dithered codes 256 to 512).
pub open spec fn blended_color(code: u32, c1: SpecColor, c2: SpecColor) -> SpecColor {
    SpecColor {
        code,
        name: "Blended Color ("@ + decimal((code / 16) as nat) + " and "@ + decimal(
            (code % 16) as nat,
        ) + ")"@,
        color: (
            mix(c1.color.0, c2.color.0),
            mix(c1.color.1, c2.color.1),
            mix(c1.color.2, c2.color.2),
            255,
        ),
        edge: channels_of(0xff59_5959),
        luminance: 0,
        material: SpecMaterial::Plastic,
    }
}

/// The colour written directly as `0x2RRGGBB`.
pub open spec fn rgb_2_color(code: u32) -> SpecColor {
    SpecColor {
        code,
        name: "RGB Color ("@ + zero_padded(hexadecimal((code % 0x100_0000) as nat), 6) + ")"@,
        color: channels_of((0xff00_0000 + code % 0x100_0000) as u32),
        edge: channels_of(0xff59_5959),
        luminance: 0,
        material: SpecMaterial::Plastic,
    }
}

/// The four bits of `code` at `place` (a power of sixteen), scaled to eight
/// bits.
pub open spec fn nibble_channel(code: u32, place: u32) -> u8 {
    (((code / place) % 16) * 16) as u8
}

/// The colour written directly as `0x4EEECCC` (edge and colour in four bits
/// per channel).
pub open spec fn rgb_4_color(code: u32) -> SpecColor {
    SpecColor {
        code,
        name: "RGB Color ("@ + zero_padded(hexadecimal((code % 0x1000) as nat), 3) + ")"@,
        color: (nibble_channel(code, 0x100), nibble_channel(code, 0x10), nibble_channel(code, 1), 255),
        edge: (
            nibble_channel(code, 0x10_0000),
            nibble_channel(code, 0x1_0000),
            nibble_channel(code, 0x1000),
            255,
        ),
        luminance: 0,
        material: SpecMaterial::Plastic,
    }
}

/// What a colour code refers to, given the catalog.
pub open spec fn resolved(code: u32, colors: Map<u32, SpecColor>) -> SpecColorReference {
    if code == 16 {
        SpecColorReference::Current
    } else if code == 24 {
        SpecColorReference::Complement
    } else if colors.contains_key(code) {
        SpecColorReference::Color(colors[code])
    } else if 256 <= code <= 512 && colors.contains_key(code / 16) && colors.contains_key(
        code % 16,
    ) {
        SpecColorReference::Color(blended_color(code, colors[code / 16], colors[code % 16]))
    } else if code / 0x100_0000 == 2 {
        SpecColorReference::Color(rgb_2_color(code))
    } else if code / 0x100_0000 == 4 {
        SpecColorReference::Color(rgb_4_color(code))
    } else {
        SpecColorReference::Unknown(code)
    }
}

/// A dithered code from 256 to 512, not itself in the catalog, whose two
/// halves `code / 16` and `code % 16` are catalog colours, resolves to a
/// colour of that code whose red, green and blue are each half of the first
/// colour's plus half of the second's, fully opaque.
pub proof fn lemma_resolved_blend(code: u32, colors: Map<u32, SpecColor>)
    requires
        256 <= code <= 512,
        !colors.contains_key(code),
        colors.contains_key(code / 16),
        colors.contains_key(code % 16),
    ensures
        resolved(code, colors) matches SpecColorReference::Color(c) && {
            let c1 = colors[code / 16].color;
            let c2 = colors[code % 16].color;
            &&& c.code == code
            &&& c.color.0 as int == c1.0 / 2 + c2.0 / 2
            &&& c.color.1 as int == c1.1 / 2 + c2.1 / 2
            &&& c.color.2 as int == c1.2 / 2 + c2.2 / 2
            &&& c.color.3 == 255
        },
{
}

impl PartialEq for ColorReference {
    /// Two references are equal when they stand for the same code.
    fn eq(&self, other: &Self) -> (res: bool) {
        self.code() == other.code()
    }
}

impl Eq for ColorReference {}

impl vstd::std_specs::cmp::PartialEqSpecImpl for ColorReference {
    open spec fn obeys_eq_spec() -> bool {
        true
    }

    open spec fn eq_spec(&self, other: &ColorReference) -> bool {
        reference_code(self@) == reference_code(other@)
    }
}

impl ColorReference {
    pub fn code(&self) -> (res: u32)
        ensures
            res == reference_code(self@),
    {
        match self {
            ColorReference::Unknown(c) => *c,
            ColorReference::Current => 16,
            ColorReference::Complement => 24,
            ColorReference::Color(m) => m.code,
            ColorReference::Unresolved(c) => *c,
        }
    }

    pub fn is_current(&self) -> (res: bool)
        ensures
            res == self is Current,
    {
        matches!(self, ColorReference::Current)
    }

    pub fn is_complement(&self) -> (res: bool)
        ensures
            res == self is Complement,
    {
        matches!(self, ColorReference::Complement)
    }

    pub fn is_color(&self) -> (res: bool)
        ensures
            res == self is Color,
    {
        matches!(self, ColorReference::Color(_))
    }

    pub fn get_color(&self) -> (res: Option<&Color>)
        ensures
            match self {
                ColorReference::Color(m) => res == Some(m),
                _ => res is None,
            },
    {
        match self {
            ColorReference::Color(m) => Some(m),
            _ => None,
        }
    }

    fn resolve_blended(code: u32, colors: &ColorCatalog) -> (res: Option<Color>)
        requires
            256 <= code <= 512,
        ensures
            match res {
                Some(c) => catalog_view(colors).contains_key(code / 16) && catalog_view(
                    colors,
                ).contains_key(code % 16) && c@ == blended_color(
                    code,
                    catalog_view(colors)[code / 16],
                    catalog_view(colors)[code % 16],
                ),
                None => !(catalog_view(colors).contains_key(code / 16) && catalog_view(
                    colors,
                ).contains_key(code % 16)),
            },
    {
        broadcast use vstd::std_specs::hash::group_hash_axioms;

        let code1 = code / 16;
        let code2 = code % 16;

        let color1 = match colors.get(&code1) {
            Some(c) => c,
            None => return None,
        };
        let color2 = match colors.get(&code2) {
            Some(c) => c,
            None => return None,
        };

        let new_color = Rgba::new(
            color1.color.red() / 2 + color2.color.red() / 2,
            color1.color.green() / 2 + color2.color.green() / 2,
            color1.color.blue() / 2 + color2.color.blue() / 2,
            255,
        );
        let mut name = String::from_str("Blended Color (");
        push_decimal(&mut name, code1 as u64);
        name.append(" and ");
        push_decimal(&mut name, code2 as u64);
        name.append(")");
        Some(
            Color {
                code,
                name,
                color: new_color,
                edge: Rgba::from_value(0xff59_5959),
                luminance: 0,
                material: Material::Plastic,
            },
        )
    }

    fn resolve_rgb_4(code: u32) -> (res: Color)
        ensures
            res@ == rgb_4_color(code),
    {
        assert(((code & 0xf00) >> 8) == (code / 0x100) % 16) by (bit_vector);
        assert(((code & 0x0f0) >> 4) == (code / 0x10) % 16) by (bit_vector);
        assert((code & 0x00f) == code % 16) by (bit_vector);
        assert(((code & 0xf0_0000) >> 20) == (code / 0x10_0000) % 16) by (bit_vector);
        assert(((code & 0x0f_0000) >> 16) == (code / 0x1_0000) % 16) by (bit_vector);
        assert(((code & 0x00_f000) >> 12) == (code / 0x1000) % 16) by (bit_vector);
        assert((code & 0xfff) == code % 0x1000) by (bit_vector);
        let red = (((code & 0xf00) >> 8) * 16) as u8;
        let green = (((code & 0x0f0) >> 4) * 16) as u8;
        let blue = ((code & 0x00f) * 16) as u8;

        let edge_red = (((code & 0xf0_0000) >> 20) * 16) as u8;
        let edge_green = (((code & 0x0f_0000) >> 16) * 16) as u8;
        let edge_blue = (((code & 0x00_f000) >> 12) * 16) as u8;

        let mut name = String::from_str("RGB Color (");
        push_hexadecimal_padded(&mut name, code & 0xfff, 3);
        name.append(")");
        Color {
            code,
            name,
            color: Rgba::new(red, green, blue, 255),
            edge: Rgba::new(edge_red, edge_green, edge_blue, 255),
            luminance: 0,
            material: Material::Plastic,
        }
    }

    fn resolve_rgb_2(code: u32) -> (res: Color)
        ensures
            res@ == rgb_2_color(code),
    {
        assert((code & 0xff_ffff) == code % 0x100_0000) by (bit_vector);
        assert((0xff00_0000 | (code & 0xff_ffff)) == 0xff00_0000 + code % 0x100_0000) by (bit_vector);
        let mut name = String::from_str("RGB Color (");
        push_hexadecimal_padded(&mut name, code & 0xff_ffff, 6);
        name.append(")");
        Color {
            code,
            name,
            color: Rgba::from_value(0xff00_0000 | (code & 0xff_ffff)),
            edge: Rgba::from_value(0xff59_5959),
            luminance: 0,
            material: Material::Plastic,
        }
    }

    /// The colour that `code` refers to: the inherited colours, a colour of
    /// the catalog, a mix of two catalog colours, a colour written in the
    /// code itself, or an unknown code.
    pub fn resolve(code: u32, colors: &ColorCatalog) -> (res: ColorReference)
        ensures
            res@ == resolved(code, catalog_view(colors)),
    {
        broadcast use vstd::std_specs::hash::group_hash_axioms;

        if code == 16 {
            return ColorReference::Current;
        }
        if code == 24 {
            return ColorReference::Complement;
        }
        if let Some(c) = colors.get(&code) {
            return ColorReference::Color(c.clone());
        }
        if 256 <= code && code <= 512 {
            if let Some(c) = ColorReference::resolve_blended(code, colors) {
                return ColorReference::Color(c);
            }
        }
        assert((code & 0xff00_0000) == 0x0200_0000 <==> code / 0x100_0000 == 2) by (bit_vector);
        assert((code & 0xff00_0000) == 0x0400_0000 <==> code / 0x100_0000 == 4) by (bit_vector);
        if (code & 0xff00_0000) == 0x0200_0000 {
            return ColorReference::Color(ColorReference::resolve_rgb_2(code));
        } else if (code & 0xff00_0000) == 0x0400_0000 {
            return ColorReference::Color(ColorReference::resolve_rgb_4(code));
        }
        ColorReference::Unknown(code)
    }

    /// Looks up a code that was left unresolved; any other reference stays.
    pub fn resolve_self(&mut self, colors: &ColorCatalog)
        ensures
            match old(self)@ {
                SpecColorReference::Unresolved(code) => final(self)@ == resolved(code, catalog_view(colors)),
                _ => *final(self) == *old(self),
            },
    {
        if let ColorReference::Unresolved(code) = self {
            *self = ColorReference::resolve(*code, colors);
        }
    }
}

/// Whether every colour of `colors` is filed under its own code.
pub open spec fn keyed_by_code(colors: Map<u32, SpecColor>) -> bool {
    forall|k: u32| #[trigger] colors.contains_key(k) ==> colors[k].code == k
}

/// Resolving a code gives a reference to that same code, when the catalog
/// files each colour under its own code.
pub proof fn lemma_resolved_keeps_code(code: u32, colors: Map<u32, SpecColor>)
    requires
        keyed_by_code(colors),
    ensures
        reference_code(resolved(code, colors)) == code,
{
}

/// A resolved reference is never left unresolved, so resolving it again
/// changes nothing.
pub proof fn lemma_resolved_is_resolved(code: u32, colors: Map<u32, SpecColor>)
    ensures
        !(resolved(code, colors) is Unresolved),
{
}

/// A colour packed as `0xAARRGGBB` unpacks to its four channels.
pub proof fn lemma_channels_round_trip(r: u8, g: u8, b: u8, a: u8)
    ensures
        channels_of(((a as u32) * 0x100_0000 + (r as u32) * 0x1_0000 + (g as u32) * 0x100 + (b as u32)) as u32) == (r, g, b, a),
{
    let v: int = (a as int) * 0x100_0000 + (r as int) * 0x1_0000 + (g as int) * 0x100 + (b as int);
    assert(0 <= v <= 0xffff_ffff) by (nonlinear_arith)
        requires
            v == (a as int) * 0x100_0000 + (r as int) * 0x1_0000 + (g as int) * 0x100 + (b as int),
            0 <= r < 256, 0 <= g < 256, 0 <= b < 256, 0 <= a < 256,
    ;
    let x: u32 = v as u32;
    assert(x as int == v);
    assert(v / 0x1_0000 == (a as int) * 0x100 + (r as int)) by (nonlinear_arith)
        requires
            v == (a as int) * 0x100_0000 + (r as int) * 0x1_0000 + (g as int) * 0x100 + (b as int),
            0 <= r < 256, 0 <= g < 256, 0 <= b < 256, 0 <= a < 256,
    ;
    assert(((a as int) * 0x100 + (r as int)) % 0x100 == r as int) by (nonlinear_arith)
        requires
            0 <= r < 256, 0 <= a < 256,
    ;
    assert(v / 0x100 == (a as int) * 0x1_0000 + (r as int) * 0x100 + (g as int)) by (nonlinear_arith)
        requires
            v == (a as int) * 0x100_0000 + (r as int) * 0x1_0000 + (g as int) * 0x100 + (b as int),
            0 <= r < 256, 0 <= g < 256, 0 <= b < 256, 0 <= a < 256,
    ;
    assert(((a as int) * 0x1_0000 + (r as int) * 0x100 + (g as int)) % 0x100 == g as int) by (nonlinear_arith)
        requires
            0 <= r < 256, 0 <= g < 256, 0 <= a < 256,
    ;
    assert(v % 0x100 == b as int) by (nonlinear_arith)
        requires
            v == (a as int) * 0x100_0000 + (r as int) * 0x1_0000 + (g as int) * 0x100 + (b as int),
            0 <= r < 256, 0 <= g < 256, 0 <= b < 256, 0 <= a < 256,
    ;
    assert(v / 0x100_0000 == a as int) by (nonlinear_arith)
        requires
            v == (a as int) * 0x100_0000 + (r as int) * 0x1_0000 + (g as int) * 0x100 + (b as int),
            0 <= r < 256, 0 <= g < 256, 0 <= b < 256, 0 <= a < 256,
    ;
}

} // verus!
