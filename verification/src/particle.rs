//! Particle kinds and colour charges, and how they are encoded in GPU buffers.

use vstd::prelude::*;

verus! {

/// Colour charge carried by a quark.
///
/// On the GPU the charge is stored as a `u32` (see [`ColorCharge::to_u32`]).
#[derive(Debug, Clone, Copy, PartialEq, Eq, Structural)]
pub enum ColorCharge {
    Red,
    Green,
    Blue,
    AntiRed,
    AntiGreen,
    AntiBlue,
}

/// The GPU code of a colour charge.
pub open spec fn color_code(c: ColorCharge) -> u32 {
    match c {
        ColorCharge::Red => 0,
        ColorCharge::Green => 1,
        ColorCharge::Blue => 2,
        ColorCharge::AntiRed => 3,
        ColorCharge::AntiGreen => 4,
        ColorCharge::AntiBlue => 5,
    }
}

/// The colour charge that a GPU code stands for, if any.
pub open spec fn color_from_code(v: u32) -> Option<ColorCharge> {
    if v == 0 {
        Some(ColorCharge::Red)
    } else if v == 1 {
        Some(ColorCharge::Green)
    } else if v == 2 {
        Some(ColorCharge::Blue)
    } else if v == 3 {
        Some(ColorCharge::AntiRed)
    } else if v == 4 {
        Some(ColorCharge::AntiGreen)
    } else if v == 5 {
        Some(ColorCharge::AntiBlue)
    } else {
        None
    }
}

impl ColorCharge {
    /// The `u32` written into a particle's `color_and_flags[0]`.
    pub fn to_u32(self) -> (r: u32)
        ensures
            r == color_code(self),
    {
        match self {
            ColorCharge::Red => 0,
            ColorCharge::Green => 1,
            ColorCharge::Blue => 2,
            ColorCharge::AntiRed => 3,
            ColorCharge::AntiGreen => 4,
            ColorCharge::AntiBlue => 5,
        }
    }

    /// Decodes a particle's stored colour code; codes above 5 carry no colour.
    pub fn from_u32(v: u32) -> (r: Option<ColorCharge>)
        ensures
            r == color_from_code(v),
    {
        match v {
            0 => Some(ColorCharge::Red),
            1 => Some(ColorCharge::Green),
            2 => Some(ColorCharge::Blue),
            3 => Some(ColorCharge::AntiRed),
            4 => Some(ColorCharge::AntiGreen),
            5 => Some(ColorCharge::AntiBlue),
            _ => None,
        }
    }
}

/// Quark flavours.
#[derive(Debug, Clone, Copy, PartialEq, Eq, Structural)]
pub enum QuarkFlavor {
    Up,
    Down,
}

/// Fundamental (and emergent composite) particle kinds.
///
/// On the GPU the kind is stored in `position.w` (see [`ParticleType::to_u32`]).
#[derive(Debug, Clone, Copy, PartialEq, Eq, Structural)]
pub enum ParticleType {
    QuarkUp,
    QuarkDown,
    Electron,
    Gluon,
    Proton,
    Neutron,
}

/// The GPU code of a quark flavour.
pub open spec fn flavor_code(f: QuarkFlavor) -> u32 {
    match f {
        QuarkFlavor::Up => 0,
        QuarkFlavor::Down => 1,
    }
}

/// The GPU code of a particle kind.
pub open spec fn type_code(t: ParticleType) -> u32 {
    match t {
        ParticleType::QuarkUp => 0,
        ParticleType::QuarkDown => 1,
        ParticleType::Electron => 2,
        ParticleType::Gluon => 3,
        ParticleType::Proton => 4,
        ParticleType::Neutron => 5,
    }
}

/// The particle kind that a GPU code stands for, if any.
pub open spec fn type_from_code(v: u32) -> Option<ParticleType> {
    if v == 0 {
        Some(ParticleType::QuarkUp)
    } else if v == 1 {
        Some(ParticleType::QuarkDown)
    } else if v == 2 {
        Some(ParticleType::Electron)
    } else if v == 3 {
        Some(ParticleType::Gluon)
    } else if v == 4 {
        Some(ParticleType::Proton)
    } else if v == 5 {
        Some(ParticleType::Neutron)
    } else {
        None
    }
}

impl QuarkFlavor {
    /// The `u32` code of this flavour.
    pub fn to_u32(self) -> (r: u32)
        ensures
            r == flavor_code(self),
    {
        match self {
            QuarkFlavor::Up => 0,
            QuarkFlavor::Down => 1,
        }
    }
}

impl ParticleType {
    /// The `u32` code stored (as a float) in a particle's `position.w`.
    pub fn to_u32(self) -> (r: u32)
        ensures
            r == type_code(self),
    {
        match self {
            ParticleType::QuarkUp => 0,
            ParticleType::QuarkDown => 1,
            ParticleType::Electron => 2,
            ParticleType::Gluon => 3,
            ParticleType::Proton => 4,
            ParticleType::Neutron => 5,
        }
    }

    /// Decodes a particle's stored kind code; codes above 5 name no kind.
    pub fn from_u32(v: u32) -> (r: Option<ParticleType>)
        ensures
            r == type_from_code(v),
    {
        match v {
            0 => Some(ParticleType::QuarkUp),
            1 => Some(ParticleType::QuarkDown),
            2 => Some(ParticleType::Electron),
            3 => Some(ParticleType::Gluon),
            4 => Some(ParticleType::Proton),
            5 => Some(ParticleType::Neutron),
            _ => None,
        }
    }
}

/// Whether a (possibly unknown) particle kind is a quark, the only kind the strong force acts on.
pub fn is_quark(t: Option<ParticleType>) -> (r: bool)
    ensures
        r == (t == Some(ParticleType::QuarkUp) || t == Some(ParticleType::QuarkDown)),
{
    match t {
        Some(ParticleType::QuarkUp) | Some(ParticleType::QuarkDown) => true,
        _ => false,
    }
}

/// Two colour charges attract when both are present and differ: a colour with its
/// anti-colour, or two different colours on the way to a colour-neutral bound state.
pub open spec fn charges_attract(c1: Option<ColorCharge>, c2: Option<ColorCharge>) -> bool {
    c1 is Some && c2 is Some && c1->0 != c2->0
}

/// Whether two quarks' colour charges attract (colour + anti-colour, or forming colour-neutral).
pub fn color_charges_attract(c1: Option<ColorCharge>, c2: Option<ColorCharge>) -> (r: bool)
    ensures
        r == charges_attract(c1, c2),
{
    match (c1, c2) {
        (Some(ColorCharge::Red), Some(ColorCharge::AntiRed)) => true,
        (Some(ColorCharge::Green), Some(ColorCharge::AntiGreen)) => true,
        (Some(ColorCharge::Blue), Some(ColorCharge::AntiBlue)) => true,
        (Some(ColorCharge::AntiRed), Some(ColorCharge::Red)) => true,
        (Some(ColorCharge::AntiGreen), Some(ColorCharge::Green)) => true,
        (Some(ColorCharge::AntiBlue), Some(ColorCharge::Blue)) => true,
        (Some(a), Some(b)) if a != b => true,
        _ => false,
    }
}

/// Colour attraction is symmetric, every colour attracts its anti-colour,
/// and no charge attracts itself.
pub proof fn lemma_attraction_symmetric(c1: Option<ColorCharge>, c2: Option<ColorCharge>)
    ensures
        charges_attract(c1, c2) == charges_attract(c2, c1),
        charges_attract(Some(ColorCharge::Red), Some(ColorCharge::AntiRed)),
        charges_attract(Some(ColorCharge::Green), Some(ColorCharge::AntiGreen)),
        charges_attract(Some(ColorCharge::Blue), Some(ColorCharge::AntiBlue)),
        !charges_attract(c1, c1),
{
}

/// Any two different colour charges attract, and nothing attracts without two
/// charges present: a colour with its own anti-colour, a colour with a
/// different colour or a different anti-colour, and so on.
pub proof fn lemma_different_charges_attract(a: ColorCharge, b: ColorCharge, c: Option<ColorCharge>)
    ensures
        charges_attract(Some(a), Some(b)) <==> a != b,
        !charges_attract(None, c),
        !charges_attract(c, None),
{
}

/// The GPU layout the shaders read: colours are numbered 0, 1, 2 (red, green,
/// blue) and each anti-colour is its colour's number plus 3; quark kinds come
/// first (up 0, down 1), then the electron 2, the gluon 3, the proton 4 and the
/// neutron 5; up and down flavours are 0 and 1. Different charges and kinds
/// have different numbers.
pub proof fn lemma_gpu_layout(a: ColorCharge, b: ColorCharge, t: ParticleType, u: ParticleType)
    ensures
        color_code(ColorCharge::Red) == 0 && color_code(ColorCharge::Green) == 1 && color_code(ColorCharge::Blue) == 2,
        color_code(ColorCharge::AntiRed) == color_code(ColorCharge::Red) + 3,
        color_code(ColorCharge::AntiGreen) == color_code(ColorCharge::Green) + 3,
        color_code(ColorCharge::AntiBlue) == color_code(ColorCharge::Blue) + 3,
        a != b ==> color_code(a) != color_code(b),
        t != u ==> type_code(t) != type_code(u),
        (type_code(t) < 2) == (t == ParticleType::QuarkUp || t == ParticleType::QuarkDown),
        type_code(ParticleType::QuarkUp) == 0 && type_code(ParticleType::QuarkDown) == 1,
        type_code(ParticleType::Electron) == 2 && type_code(ParticleType::Gluon) == 3,
        type_code(ParticleType::Proton) == 4 && type_code(ParticleType::Neutron) == 5,
        flavor_code(QuarkFlavor::Up) == 0 && flavor_code(QuarkFlavor::Down) == 1,
{
}

/// Encoding a colour charge or particle kind and decoding it gives it back,
/// and every code that decodes is the code of what it decodes to.
pub proof fn lemma_codes_roundtrip(c: ColorCharge, t: ParticleType, v: u32)
    ensures
        color_from_code(color_code(c)) == Some(c),
        type_from_code(type_code(t)) == Some(t),
        color_from_code(v) is Some <==> v < 6,
        type_from_code(v) is Some <==> v < 6,
        color_from_code(v) is Some ==> color_code(color_from_code(v)->0) == v,
        type_from_code(v) is Some ==> type_code(type_from_code(v)->0) == v,
{
}

} // verus!
