//! The KCL collision format: header, prisms, surface classes, and their OBJ/MTL rendering.
use vstd::prelude::*;

use crate::binary::{be_u16, be_u32, be_u32_words, read_f32_bits, read_u16, read_u32, read_vec_f32_bits};
use crate::text::{decimal, push_decimal};

verus! {

/// The surface class of a collision prism, stored in the low five bits of its flag.
#[derive(Debug, Clone, Copy, PartialEq, Eq, Structural, Hash)]
pub enum BaseType {
    Road,
    SlipperyRoad1,
    WeakOffroad,
    Offroad,
    HeavyOffroad,
    SlipperyRoad2,
    BoostPanel,
    BoostRamp,
    JumpPad,
    ItemRoad,
    SolidFall,
    MovingWater,
    Wall,
    InvisibleWall,
    ItemWall,
    Wall2,
    FallBoundary,
    CannonTrigger,
    ForceRecalculation,
    HalfPipeRamp,
    PlayerOnlyWall,
    MovingRoad,
    StickyRoad,
    Road2,
    SoundTrigger,
    WeakWall,
    EffectTrigger,
    ItemStateModifier,
    HalfPipeInvisibleWall,
    RotatingRoad,
    SpecialWall,
    InvisibleWall2,
}

/// The surface class whose five-bit code is `d` (`d < 32`).
pub open spec fn base_type_of(d: int) -> BaseType {
    if d == 0 {
        BaseType::Road
    } else if d == 1 {
        BaseType::SlipperyRoad1
    } else if d == 2 {
        BaseType::WeakOffroad
    } else if d == 3 {
        BaseType::Offroad
    } else if d == 4 {
        BaseType::HeavyOffroad
    } else if d == 5 {
        BaseType::SlipperyRoad2
    } else if d == 6 {
        BaseType::BoostPanel
    } else if d == 7 {
        BaseType::BoostRamp
    } else if d == 8 {
        BaseType::JumpPad
    } else if d == 9 {
        BaseType::ItemRoad
    } else if d == 10 {
        BaseType::SolidFall
    } else if d == 11 {
        BaseType::MovingWater
    } else if d == 12 {
        BaseType::Wall
    } else if d == 13 {
        BaseType::InvisibleWall
    } else if d == 14 {
        BaseType::ItemWall
    } else if d == 15 {
        BaseType::Wall2
    } else if d == 16 {
        BaseType::FallBoundary
    } else if d == 17 {
        BaseType::CannonTrigger
    } else if d == 18 {
        BaseType::ForceRecalculation
    } else if d == 19 {
        BaseType::HalfPipeRamp
    } else if d == 20 {
        BaseType::PlayerOnlyWall
    } else if d == 21 {
        BaseType::MovingRoad
    } else if d == 22 {
        BaseType::StickyRoad
    } else if d == 23 {
        BaseType::Road2
    } else if d == 24 {
        BaseType::SoundTrigger
    } else if d == 25 {
        BaseType::WeakWall
    } else if d == 26 {
        BaseType::EffectTrigger
    } else if d == 27 {
        BaseType::ItemStateModifier
    } else if d == 28 {
        BaseType::HalfPipeInvisibleWall
    } else if d == 29 {
        BaseType::RotatingRoad
    } else if d == 30 {
        BaseType::SpecialWall
    } else {
        BaseType::InvisibleWall2
    }
}

impl BaseType {
    /// The five-bit code of this surface class.
    pub open spec fn spec_discriminant(self) -> u8 {
        match self {
            BaseType::Road => 0,
            BaseType::SlipperyRoad1 => 1,
            BaseType::WeakOffroad => 2,
            BaseType::Offroad => 3,
            BaseType::HeavyOffroad => 4,
            BaseType::SlipperyRoad2 => 5,
            BaseType::BoostPanel => 6,
            BaseType::BoostRamp => 7,
            BaseType::JumpPad => 8,
            BaseType::ItemRoad => 9,
            BaseType::SolidFall => 10,
            BaseType::MovingWater => 11,
            BaseType::Wall => 12,
            BaseType::InvisibleWall => 13,
            BaseType::ItemWall => 14,
            BaseType::Wall2 => 15,
            BaseType::FallBoundary => 16,
            BaseType::CannonTrigger => 17,
            BaseType::ForceRecalculation => 18,
            BaseType::HalfPipeRamp => 19,
            BaseType::PlayerOnlyWall => 20,
            BaseType::MovingRoad => 21,
            BaseType::StickyRoad => 22,
            BaseType::Road2 => 23,
            BaseType::SoundTrigger => 24,
            BaseType::WeakWall => 25,
            BaseType::EffectTrigger => 26,
            BaseType::ItemStateModifier => 27,
            BaseType::HalfPipeInvisibleWall => 28,
            BaseType::RotatingRoad => 29,
            BaseType::SpecialWall => 30,
            BaseType::InvisibleWall2 => 31,
        }
    }

    /// The RGBA colour used to draw this surface class.
    pub open spec fn spec_color(self) -> Seq<u8> {
        match self {
            BaseType::Road => seq![255u8, 255u8, 255u8, 255u8],
            BaseType::SlipperyRoad1 => seq![255u8, 230u8, 204u8, 255u8],
            BaseType::WeakOffroad => seq![0u8, 204u8, 0u8, 255u8],
            BaseType::Offroad => seq![0u8, 153u8, 0u8, 255u8],
            BaseType::HeavyOffroad => seq![0u8, 102u8, 0u8, 255u8],
            BaseType::SlipperyRoad2 => seq![204u8, 230u8, 255u8, 255u8],
            BaseType::BoostPanel => seq![255u8, 128u8, 0u8, 255u8],
            BaseType::BoostRamp => seq![255u8, 153u8, 0u8, 255u8],
            BaseType::JumpPad => seq![255u8, 204u8, 0u8, 255u8],
            BaseType::ItemRoad => seq![230u8, 230u8, 255u8, 255u8],
            BaseType::SolidFall => seq![179u8, 26u8, 26u8, 255u8],
            BaseType::MovingWater => seq![0u8, 128u8, 255u8, 255u8],
            BaseType::Wall => seq![153u8, 153u8, 153u8, 255u8],
            BaseType::InvisibleWall => seq![0u8, 0u8, 153u8, 200u8],
            BaseType::ItemWall => seq![153u8, 153u8, 179u8, 255u8],
            BaseType::Wall2 => seq![153u8, 153u8, 153u8, 255u8],
            BaseType::FallBoundary => seq![204u8, 0u8, 0u8, 255u8],
            BaseType::CannonTrigger => seq![255u8, 0u8, 128u8, 255u8],
            BaseType::ForceRecalculation => seq![128u8, 0u8, 255u8, 50u8],
            BaseType::HalfPipeRamp => seq![0u8, 77u8, 255u8, 255u8],
            BaseType::PlayerOnlyWall => seq![204u8, 102u8, 0u8, 255u8],
            BaseType::MovingRoad => seq![230u8, 230u8, 255u8, 255u8],
            BaseType::StickyRoad => seq![230u8, 179u8, 255u8, 255u8],
            BaseType::Road2 => seq![255u8, 255u8, 255u8, 255u8],
            BaseType::SoundTrigger => seq![255u8, 0u8, 255u8, 50u8],
            BaseType::WeakWall => seq![102u8, 153u8, 102u8, 255u8],
            BaseType::EffectTrigger => seq![204u8, 0u8, 255u8, 50u8],
            BaseType::ItemStateModifier => seq![255u8, 0u8, 255u8, 50u8],
            BaseType::HalfPipeInvisibleWall => seq![0u8, 153u8, 0u8, 200u8],
            BaseType::RotatingRoad => seq![230u8, 230u8, 255u8, 255u8],
            BaseType::SpecialWall => seq![204u8, 179u8, 204u8, 255u8],
            BaseType::InvisibleWall2 => seq![0u8, 0u8, 153u8, 200u8],
        }
    }

    /// The material name used for this surface class.
    pub open spec fn spec_name(self) -> Seq<char> {
        match self {
            BaseType::Road => "road"@,
            BaseType::SlipperyRoad1 => "slippery_road1"@,
            BaseType::WeakOffroad => "weak_offroad"@,
            BaseType::Offroad => "offroad"@,
            BaseType::HeavyOffroad => "heavy_offroad"@,
            BaseType::SlipperyRoad2 => "slippery_road2"@,
            BaseType::BoostPanel => "boost_panel"@,
            BaseType::BoostRamp => "boost_ramp"@,
            BaseType::JumpPad => "jump_pad"@,
            BaseType::ItemRoad => "item_road"@,
            BaseType::SolidFall => "solid_fall"@,
            BaseType::MovingWater => "moving_water"@,
            BaseType::Wall => "wall"@,
            BaseType::InvisibleWall => "invisible_wall"@,
            BaseType::ItemWall => "item_wall"@,
            BaseType::Wall2 => "wall2"@,
            BaseType::FallBoundary => "fall_boundary"@,
            BaseType::CannonTrigger => "cannon_trigger"@,
            BaseType::ForceRecalculation => "force_recalc"@,
            BaseType::HalfPipeRamp => "halfpipe_ramp"@,
            BaseType::PlayerOnlyWall => "player_wall"@,
            BaseType::MovingRoad => "moving_road"@,
            BaseType::StickyRoad => "sticky_road"@,
            BaseType::Road2 => "road2"@,
            BaseType::SoundTrigger => "sound_trigger"@,
            BaseType::WeakWall => "weak_wall"@,
            BaseType::EffectTrigger => "effect_trigger"@,
            BaseType::ItemStateModifier => "item_state"@,
            BaseType::HalfPipeInvisibleWall => "halfpipe_invis"@,
            BaseType::RotatingRoad => "rotating_road"@,
            BaseType::SpecialWall => "special_wall"@,
            BaseType::InvisibleWall2 => "invisible_wall2"@,
        }
    }

    /// Decodes the surface class from the low five bits of a prism flag.
    pub fn from_u16(value: u16) -> (r: Result<Self, String>)
        ensures
            r == Ok::<BaseType, String>(base_type_of((value % 32) as int)),
    {
        let code = value & 0x1F;
        assert(value & 0x1F == value % 32) by (bit_vector);
        match code {
            0x00 => Ok(Self::Road),
            0x01 => Ok(Self::SlipperyRoad1),
            0x02 => Ok(Self::WeakOffroad),
            0x03 => Ok(Self::Offroad),
            0x04 => Ok(Self::HeavyOffroad),
            0x05 => Ok(Self::SlipperyRoad2),
            0x06 => Ok(Self::BoostPanel),
            0x07 => Ok(Self::BoostRamp),
            0x08 => Ok(Self::JumpPad),
            0x09 => Ok(Self::ItemRoad),
            0x0A => Ok(Self::SolidFall),
            0x0B => Ok(Self::MovingWater),
            0x0C => Ok(Self::Wall),
            0x0D => Ok(Self::InvisibleWall),
            0x0E => Ok(Self::ItemWall),
            0x0F => Ok(Self::Wall2),
            0x10 => Ok(Self::FallBoundary),
            0x11 => Ok(Self::CannonTrigger),
            0x12 => Ok(Self::ForceRecalculation),
            0x13 => Ok(Self::HalfPipeRamp),
            0x14 => Ok(Self::PlayerOnlyWall),
            0x15 => Ok(Self::MovingRoad),
            0x16 => Ok(Self::StickyRoad),
            0x17 => Ok(Self::Road2),
            0x18 => Ok(Self::SoundTrigger),
            0x19 => Ok(Self::WeakWall),
            0x1A => Ok(Self::EffectTrigger),
            0x1B => Ok(Self::ItemStateModifier),
            0x1C => Ok(Self::HalfPipeInvisibleWall),
            0x1D => Ok(Self::RotatingRoad),
            0x1E => Ok(Self::SpecialWall),
            0x1F => Ok(Self::InvisibleWall2),
            _ => {
                let mut message = String::from_str("Unknown KCL flag: ");
                push_decimal(&mut message, value as u64);
                Err(message)
            },
        }
    }

    /// The RGBA colour used to draw this surface class.
    pub fn color(&self) -> (c: [u8; 4])
        ensures
            c@ == self.spec_color(),
    {
        let (r, g, b, a) = match self {
            Self::Road => (255, 255, 255, 255),
            Self::SlipperyRoad1 => (255, 230, 204, 255),
            Self::WeakOffroad => (0, 204, 0, 255),
            Self::Offroad => (0, 153, 0, 255),
            Self::HeavyOffroad => (0, 102, 0, 255),
            Self::SlipperyRoad2 => (204, 230, 255, 255),
            Self::BoostPanel => (255, 128, 0, 255),
            Self::BoostRamp => (255, 153, 0, 255),
            Self::JumpPad => (255, 204, 0, 255),
            Self::ItemRoad => (230, 230, 255, 255),
            Self::SolidFall => (179, 26, 26, 255),
            Self::MovingWater => (0, 128, 255, 255),
            Self::Wall => (153, 153, 153, 255),
            Self::InvisibleWall => (0, 0, 153, 200),
            Self::ItemWall => (153, 153, 179, 255),
            Self::Wall2 => (153, 153, 153, 255),
            Self::FallBoundary => (204, 0, 0, 255),
            Self::CannonTrigger => (255, 0, 128, 255),
            Self::ForceRecalculation => (128, 0, 255, 50),
            Self::HalfPipeRamp => (0, 77, 255, 255),
            Self::PlayerOnlyWall => (204, 102, 0, 255),
            Self::MovingRoad => (230, 230, 255, 255),
            Self::StickyRoad => (230, 179, 255, 255),
            Self::Road2 => (255, 255, 255, 255),
            Self::SoundTrigger => (255, 0, 255, 50),
            Self::WeakWall => (102, 153, 102, 255),
            Self::EffectTrigger => (204, 0, 255, 50),
            Self::ItemStateModifier => (255, 0, 255, 50),
            Self::HalfPipeInvisibleWall => (0, 153, 0, 200),
            Self::RotatingRoad => (230, 230, 255, 255),
            Self::SpecialWall => (204, 179, 204, 255),
            Self::InvisibleWall2 => (0, 0, 153, 200),
        };
        let c = [r, g, b, a];
        assert(c@ =~= self.spec_color());
        c
    }

    /// The material name used for this surface class.
    pub fn name(&self) -> (n: &'static str)
        ensures
            n@ == self.spec_name(),
    {
        match self {
            Self::Road => "road",
            Self::SlipperyRoad1 => "slippery_road1",
            Self::WeakOffroad => "weak_offroad",
            Self::Offroad => "offroad",
            Self::HeavyOffroad => "heavy_offroad",
            Self::SlipperyRoad2 => "slippery_road2",
            Self::BoostPanel => "boost_panel",
            Self::BoostRamp => "boost_ramp",
            Self::JumpPad => "jump_pad",
            Self::ItemRoad => "item_road",
            Self::SolidFall => "solid_fall",
            Self::MovingWater => "moving_water",
            Self::Wall => "wall",
            Self::InvisibleWall => "invisible_wall",
            Self::ItemWall => "item_wall",
            Self::Wall2 => "wall2",
            Self::FallBoundary => "fall_boundary",
            Self::CannonTrigger => "cannon_trigger",
            Self::ForceRecalculation => "force_recalc",
            Self::HalfPipeRamp => "halfpipe_ramp",
            Self::PlayerOnlyWall => "player_wall",
            Self::MovingRoad => "moving_road",
            Self::StickyRoad => "sticky_road",
            Self::Road2 => "road2",
            Self::SoundTrigger => "sound_trigger",
            Self::WeakWall => "weak_wall",
            Self::EffectTrigger => "effect_trigger",
            Self::ItemStateModifier => "item_state",
            Self::HalfPipeInvisibleWall => "halfpipe_invis",
            Self::RotatingRoad => "rotating_road",
            Self::SpecialWall => "special_wall",
            Self::InvisibleWall2 => "invisible_wall2",
        }
    }

    /// The five-bit code of this surface class.
    pub fn discriminant(&self) -> (d: u8)
        ensures
            d == self.spec_discriminant(),
    {
        match self {
            Self::Road => 0x00,
            Self::SlipperyRoad1 => 0x01,
            Self::WeakOffroad => 0x02,
            Self::Offroad => 0x03,
            Self::HeavyOffroad => 0x04,
            Self::SlipperyRoad2 => 0x05,
            Self::BoostPanel => 0x06,
            Self::BoostRamp => 0x07,
            Self::JumpPad => 0x08,
            Self::ItemRoad => 0x09,
            Self::SolidFall => 0x0A,
            Self::MovingWater => 0x0B,
            Self::Wall => 0x0C,
            Self::InvisibleWall => 0x0D,
            Self::ItemWall => 0x0E,
            Self::Wall2 => 0x0F,
            Self::FallBoundary => 0x10,
            Self::CannonTrigger => 0x11,
            Self::ForceRecalculation => 0x12,
            Self::HalfPipeRamp => 0x13,
            Self::PlayerOnlyWall => 0x14,
            Self::MovingRoad => 0x15,
            Self::StickyRoad => 0x16,
            Self::Road2 => 0x17,
            Self::SoundTrigger => 0x18,
            Self::WeakWall => 0x19,
            Self::EffectTrigger => 0x1A,
            Self::ItemStateModifier => 0x1B,
            Self::HalfPipeInvisibleWall => 0x1C,
            Self::RotatingRoad => 0x1D,
            Self::SpecialWall => 0x1E,
            Self::InvisibleWall2 => 0x1F,
        }
    }
}

/// Decoding a five-bit code and reading back its code gives the same code.
pub proof fn lemma_code_roundtrip(d: int)
    requires
        0 <= d < 32,
    ensures
        base_type_of(d).spec_discriminant() == d,
{
}

/// Every surface class is decoded again from its own code.
pub proof fn lemma_discriminant_roundtrip(b: BaseType)
    ensures
        b.spec_discriminant() < 32,
        base_type_of(b.spec_discriminant() as int) == b,
{
}

/// Two surface classes with the same code are the same class.
pub proof fn lemma_discriminant_injective(a: BaseType, b: BaseType)
    requires
        a.spec_discriminant() == b.spec_discriminant(),
    ensures
        a == b,
{
    lemma_discriminant_roundtrip(a);
    lemma_discriminant_roundtrip(b);
}

/// Different surface classes have different material names, so material groups never collide.
pub proof fn lemma_names_distinct(a: BaseType, b: BaseType)
    requires
        a != b,
    ensures
        a.spec_name() != b.spec_name(),
{
    reveal_strlit("road");
    reveal_strlit("slippery_road1");
    reveal_strlit("weak_offroad");
    reveal_strlit("offroad");
    reveal_strlit("heavy_offroad");
    reveal_strlit("slippery_road2");
    reveal_strlit("boost_panel");
    reveal_strlit("boost_ramp");
    reveal_strlit("jump_pad");
    reveal_strlit("item_road");
    reveal_strlit("solid_fall");
    reveal_strlit("moving_water");
    reveal_strlit("wall");
    reveal_strlit("invisible_wall");
    reveal_strlit("item_wall");
    reveal_strlit("wall2");
    reveal_strlit("fall_boundary");
    reveal_strlit("cannon_trigger");
    reveal_strlit("force_recalc");
    reveal_strlit("halfpipe_ramp");
    reveal_strlit("player_wall");
    reveal_strlit("moving_road");
    reveal_strlit("sticky_road");
    reveal_strlit("road2");
    reveal_strlit("sound_trigger");
    reveal_strlit("weak_wall");
    reveal_strlit("effect_trigger");
    reveal_strlit("item_state");
    reveal_strlit("halfpipe_invis");
    reveal_strlit("rotating_road");
    reveal_strlit("special_wall");
    reveal_strlit("invisible_wall2");
    let sa = a.spec_name();
    let sb = b.spec_name();
    assert(sa.len() != sb.len() || sa[0] != sb[0] || sa[1] != sb[1] || sa[2] != sb[2] || sa[3] != sb[3] || sa[sa.len() - 1] != sb[sb.len() - 1] || sa[5] != sb[5] || sa[6] != sb[6] || sa[9] != sb[9]);
}

/// The flag word of a prism; only its surface class is decoded.
#[derive(Debug, Clone, Copy, PartialEq, Eq, Structural, Hash)]
pub struct Flag {
    pub base_type: BaseType,
}

impl Flag {
    /// Decodes a prism flag word.
    pub fn from_u16(value: u16) -> (r: Result<Self, String>)
        ensures
            r == Ok::<Flag, String>(Flag { base_type: base_type_of((value % 32) as int) }),
    {
        let base_type = BaseType::from_u16(value)?;
        Ok(Flag { base_type })
    }
}


/// One collision prism as stored in the prism section: a height (kept as the bit pattern of
/// its big-endian `f32`), five indices into the position and normal tables, and a flag.
#[derive(Debug, Clone, Copy, PartialEq, Eq, Structural)]
pub struct Prism {
    pub height_bits: u32,
    pub pos_i: u16,
    pub fnrm_i: u16,
    pub enrm1_i: u16,
    pub enrm2_i: u16,
    pub enrm3_i: u16,
    pub flag: Flag,
}

/// The prism encoded by the sixteen bytes at `off` in `s`.
pub open spec fn prism_at(s: Seq<u8>, off: int) -> Prism {
    Prism {
        height_bits: be_u32(s, off) as u32,
        pos_i: be_u16(s, off + 4) as u16,
        fnrm_i: be_u16(s, off + 6) as u16,
        enrm1_i: be_u16(s, off + 8) as u16,
        enrm2_i: be_u16(s, off + 10) as u16,
        enrm3_i: be_u16(s, off + 12) as u16,
        flag: Flag { base_type: base_type_of(be_u16(s, off + 14) % 32) },
    }
}

/// The message of a prism read at `off` that runs past the end of `len` bytes: the height is
/// read first, then the indices and the flag.
pub open spec fn prism_error(len: int, off: int) -> Seq<char> {
    if len < off + 4 {
        "Not enough data to read f32"@
    } else {
        "Not enough data to read u16"@
    }
}

/// The big-endian word made of the four bytes at `off` in `s`.
pub open spec fn word_bytes(s: Seq<u8>, off: int) -> int {
    ((s[off] * 256 + s[off + 1]) * 256 + s[off + 2]) * 256 + s[off + 3]
}

/// The big-endian half-word made of the two bytes at `off` in `s`.
pub open spec fn half_bytes(s: Seq<u8>, off: int) -> int {
    s[off] * 256 + s[off + 1]
}

/// `p` holds the fields of the 16-byte prism record at `off` in `s`, each from its fixed place:
/// the height from bytes 0-3, the position index from 4-5, the face normal index from 6-7, the
/// three edge normal indices from 8-9, 10-11 and 12-13, and a class whose code is the low five
/// bits of the flag in bytes 14-15.
pub open spec fn prism_fields_at(p: Prism, s: Seq<u8>, off: int) -> bool {
    &&& p.height_bits == word_bytes(s, off)
    &&& p.pos_i == half_bytes(s, off + 4)
    &&& p.fnrm_i == half_bytes(s, off + 6)
    &&& p.enrm1_i == half_bytes(s, off + 8)
    &&& p.enrm2_i == half_bytes(s, off + 10)
    &&& p.enrm3_i == half_bytes(s, off + 12)
    &&& p.flag.base_type.spec_discriminant() == half_bytes(s, off + 14) % 32
}

/// Every prism read from the bytes takes each field from its fixed place in the record.
pub proof fn lemma_prism_record_layout(s: Seq<u8>, off: int)
    requires
        0 <= off,
        off + 16 <= s.len(),
    ensures
        prism_fields_at(prism_at(s, off), s, off),
{
    lemma_code_roundtrip(be_u16(s, off + 14) % 32);
}

impl Prism {
    /// Reads the prism stored at `offset`.
    pub fn parse(data: &[u8], offset: usize) -> (r: Result<Prism, String>)
        requires
            offset + 16 <= usize::MAX,
        ensures
            r is Ok <==> offset + 16 <= data@.len(),
            r matches Ok(p) ==> p == prism_at(data@, offset as int),
            r matches Ok(p) ==> prism_fields_at(p, data@, offset as int),
            r matches Err(e) ==> e@ == prism_error(data@.len() as int, offset as int),
    {
        let height_bits = read_f32_bits(data, offset)?;
        let pos_i = read_u16(data, offset + 4)?;
        let fnrm_i = read_u16(data, offset + 6)?;
        let enrm1_i = read_u16(data, offset + 8)?;
        let enrm2_i = read_u16(data, offset + 10)?;
        let enrm3_i = read_u16(data, offset + 12)?;
        let flag = Flag::from_u16(read_u16(data, offset + 14)?)?;
        Ok(Prism { height_bits, pos_i, fnrm_i, enrm1_i, enrm2_i, enrm3_i, flag })
    }
}

/// The offsets of the four sections of a KCL file, as stored in its first sixteen bytes.
#[derive(Debug, Clone, Copy, PartialEq, Eq, Structural)]
pub struct Header {
    pub pos_data_offset: u32,
    pub nrm_data_offset: u32,
    pub prism_data_offset: u32,
    pub block_data_offset: u32,
}

/// The header stored at the start of `s`.
pub open spec fn header_at(s: Seq<u8>) -> Header {
    Header {
        pos_data_offset: be_u32(s, 0) as u32,
        nrm_data_offset: be_u32(s, 4) as u32,
        prism_data_offset: be_u32(s, 8) as u32,
        block_data_offset: be_u32(s, 12) as u32,
    }
}

/// `h` holds the four section offsets stored big-endian in the first sixteen bytes of `s`, in
/// the order positions, normals, prisms, blocks.
pub open spec fn header_fields_at(h: Header, s: Seq<u8>) -> bool {
    &&& h.pos_data_offset == word_bytes(s, 0)
    &&& h.nrm_data_offset == word_bytes(s, 4)
    &&& h.prism_data_offset == word_bytes(s, 8)
    &&& h.block_data_offset == word_bytes(s, 12)
}

/// The header read from the bytes takes each offset from its fixed place.
pub proof fn lemma_header_layout(s: Seq<u8>)
    requires
        16 <= s.len(),
    ensures
        header_fields_at(header_at(s), s),
{
}

impl Header {
    /// Reads the header at the start of `data`.
    pub fn parse(data: &[u8]) -> (r: Result<Header, String>)
        ensures
            r is Ok <==> 16 <= data@.len(),
            r matches Ok(h) ==> h == header_at(data@),
            r matches Ok(h) ==> header_fields_at(h, data@),
            r matches Err(e) ==> e@ == "Not enough data to read u32"@,
    {
        let pos_data_offset = read_u32(data, 0x00)?;
        let nrm_data_offset = read_u32(data, 0x04)?;
        let prism_data_offset = read_u32(data, 0x08)?;
        let block_data_offset = read_u32(data, 0x0C)?;
        Ok(Header { pos_data_offset, nrm_data_offset, prism_data_offset, block_data_offset })
    }
}


/// The byte offset of the first prism: the stored prism offset points sixteen bytes before it.
pub open spec fn first_prism_offset(h: Header) -> int {
    h.prism_data_offset + 16
}

/// How many whole prisms lie between the first prism and the block section.
pub open spec fn prism_count(h: Header) -> int {
    (h.block_data_offset - first_prism_offset(h)) / 16
}

/// The prisms that the header announces, read from `s`.
pub open spec fn prisms_in(s: Seq<u8>, h: Header) -> Seq<Prism> {
    Seq::new(prism_count(h) as nat, |i: int| prism_at(s, first_prism_offset(h) + 16 * i))
}

/// Whether every announced prism lies inside `len` bytes.
pub open spec fn prisms_fit(len: int, h: Header) -> bool {
    prism_count(h) == 0 || first_prism_offset(h) + 16 * prism_count(h) <= len
}

/// The message when the prisms do not fit: it comes from the first prism that runs past the
/// end, which fails on its height when fewer than four of its bytes are present.
pub open spec fn prisms_error(len: int, h: Header) -> Seq<char> {
    if len < first_prism_offset(h) || (len - first_prism_offset(h)) % 16 < 4 {
        "Not enough data to read f32"@
    } else {
        "Not enough data to read u16"@
    }
}

/// The larger of two integers.
pub open spec fn larger(a: int, b: int) -> int {
    if a < b { b } else { a }
}

/// The largest position index used by `ps`, or 0 when there is no prism.
pub open spec fn max_pos_index(ps: Seq<Prism>) -> int
    decreases ps.len(),
{
    if ps.len() == 0 {
        0
    } else {
        larger(max_pos_index(ps.drop_last()), ps.last().pos_i as int)
    }
}

/// The largest of the four normal indices of `p`.
pub open spec fn prism_max_normal(p: Prism) -> int {
    larger(larger(larger(p.fnrm_i as int, p.enrm1_i as int), p.enrm2_i as int), p.enrm3_i as int)
}

/// The largest normal index used by `ps`, or 0 when there is no prism.
pub open spec fn max_nrm_index(ps: Seq<Prism>) -> int
    decreases ps.len(),
{
    if ps.len() == 0 {
        0
    } else {
        larger(max_nrm_index(ps.drop_last()), prism_max_normal(ps.last()))
    }
}

/// How many position vectors the prisms of `s` need.
pub open spec fn position_count(s: Seq<u8>, h: Header) -> int {
    max_pos_index(prisms_in(s, h)) + 1
}

/// How many normal vectors the prisms of `s` need.
pub open spec fn normal_count(s: Seq<u8>, h: Header) -> int {
    max_nrm_index(prisms_in(s, h)) + 1
}

/// Whether the needed position vectors (three 4-byte words each) lie inside `s`.
pub open spec fn positions_fit(s: Seq<u8>, h: Header) -> bool {
    h.pos_data_offset + 12 * position_count(s, h) <= s.len()
}

/// Whether the needed normal vectors (three 4-byte words each) lie inside `s`.
pub open spec fn normals_fit(s: Seq<u8>, h: Header) -> bool {
    h.nrm_data_offset + 12 * normal_count(s, h) <= s.len()
}

/// `v` holds the words of `w` in consecutive groups of three.
pub open spec fn grouped_in_threes(v: Seq<[u32; 3]>, w: Seq<u32>) -> bool {
    &&& w.len() == 3 * v.len()
    &&& forall|j: int|
        0 <= j < v.len() ==> {
            &&& (#[trigger] v[j])[0] == w[3 * j]
            &&& v[j][1] == w[3 * j + 1]
            &&& v[j][2] == w[3 * j + 2]
        }
}

/// The three data sections that the prisms use: vectors kept as the bit patterns of their
/// big-endian `f32` components.
pub struct Sections {
    pub position_vectors: Vec<[u32; 3]>,
    pub normals: Vec<[u32; 3]>,
    pub prisms: Vec<Prism>,
}

/// What `Sections::parse` yields for `s` under `h`, when it succeeds.
pub open spec fn sections_match(sec: Sections, s: Seq<u8>, h: Header) -> bool {
    &&& sec.prisms@ == prisms_in(s, h)
    &&& grouped_in_threes(
        sec.position_vectors@,
        be_u32_words(s, h.pos_data_offset as int, (3 * position_count(s, h)) as nat),
    )
    &&& grouped_in_threes(
        sec.normals@,
        be_u32_words(s, h.nrm_data_offset as int, (3 * normal_count(s, h)) as nat),
    )
}

/// Groups the words of `w` in threes.
fn triples(w: &Vec<u32>, n: usize) -> (v: Vec<[u32; 3]>)
    requires
        w@.len() == 3 * n,
        3 * n <= usize::MAX,
    ensures
        grouped_in_threes(v@, w@),
{
    let mut v: Vec<[u32; 3]> = Vec::with_capacity(n);
    let mut j: usize = 0;
    while j < n
        invariant
            j <= n,
            w@.len() == 3 * n,
            3 * n <= usize::MAX,
            v@.len() == j,
            forall|k: int|
                0 <= k < j ==> {
                    &&& (#[trigger] v@[k])[0] == w@[3 * k]
                    &&& v@[k][1] == w@[3 * k + 1]
                    &&& v@[k][2] == w@[3 * k + 2]
                },
        decreases n - j,
    {
        let t = [w[3 * j], w[3 * j + 1], w[3 * j + 2]];
        v.push(t);
        j = j + 1;
    }
    v
}

/// Reads `n` vectors of three words at `offset`, or fails as `read_vec_f32_bits` does when
/// they do not fit; the bound is tested in a form that cannot overflow.
fn read_vectors(data: &[u8], offset: u32, n: usize) -> (r: Result<Vec<[u32; 3]>, String>)
    requires
        n <= 65536,
    ensures
        r is Ok <==> offset + 12 * n <= data@.len(),
        r matches Ok(v) ==> grouped_in_threes(
            v@,
            be_u32_words(data@, offset as int, (3 * n) as nat),
        ),
        r matches Err(e) ==> e@ == "Not enough data to read f32 vec"@,
{
    let off = offset as usize;
    if off > data.len() || data.len() - off < n * 12 {
        return Err(String::from_str("Not enough data to read f32 vec"));
    }
    let words = read_vec_f32_bits(data, off, n * 3)?;
    Ok(triples(&words, n))
}

impl Sections {
    /// Reads the prisms announced by `header`, then as many position and normal vectors as
    /// their largest indices need.
    pub fn parse(data: &[u8], header: &Header) -> (r: Result<Sections, String>)
        requires
            header.block_data_offset >= header.prism_data_offset + 16,
        ensures
            r is Ok <==> prisms_fit(data@.len() as int, *header) && positions_fit(data@, *header)
                && normals_fit(data@, *header),
            r matches Ok(sec) ==> sections_match(sec, data@, *header),
            r matches Err(e) ==> e@ == if !prisms_fit(data@.len() as int, *header) {
                prisms_error(data@.len() as int, *header)
            } else {
                "Not enough data to read f32 vec"@
            },
    {
        let ghost s = data@;
        let ghost h = *header;
        let real_prism_offset = header.prism_data_offset as usize + 0x10;
        let max_prisms = (header.block_data_offset as usize - real_prism_offset) / 0x10;
        assert(real_prism_offset + 16 * max_prisms <= header.block_data_offset) by (nonlinear_arith)
            requires
                max_prisms == (header.block_data_offset - real_prism_offset) / 16,
                real_prism_offset <= header.block_data_offset,
        ;
        let mut prisms: Vec<Prism> = Vec::with_capacity(max_prisms);
        let mut i: usize = 0;
        while i < max_prisms
            invariant
                s == data@,
                h == *header,
                real_prism_offset == first_prism_offset(h),
                max_prisms == prism_count(h),
                real_prism_offset + 16 * max_prisms <= h.block_data_offset,
                i <= max_prisms,
                i > 0 ==> real_prism_offset + 16 * i <= s.len(),
                prisms@ == prisms_in(s, h).take(i as int),
            decreases max_prisms - i,
        {
            assert(real_prism_offset + 16 * i + 16 <= real_prism_offset + 16 * max_prisms) by (nonlinear_arith)
                requires
                    i < max_prisms,
            ;
            match Prism::parse(data, real_prism_offset + i * 16) {
                Ok(p) => {
                    prisms.push(p);
                    i = i + 1;
                    assert(prisms@ =~= prisms_in(s, h).take(i as int));
                },
                Err(e) => {
                    let ghost len = s.len() as int;
                    assert(len - real_prism_offset < 16 * i + 16);
                    assert(!prisms_fit(len, h)) by (nonlinear_arith)
                        requires
                            len < real_prism_offset + 16 * i + 16,
                            i < max_prisms,
                            max_prisms == prism_count(h),
                            real_prism_offset == first_prism_offset(h),
                    ;
                    assert(e@ == prisms_error(len, h)) by (nonlinear_arith)
                        requires
                            e@ == prism_error(len, real_prism_offset + 16 * i),
                            i > 0 ==> real_prism_offset + 16 * i <= len,
                            len < real_prism_offset + 16 * i + 16,
                            real_prism_offset == first_prism_offset(h),
                    ;
                    return Err(e);
                },
            }
        }
        assert(prisms@ =~= prisms_in(s, h));
        assert(prisms_fit(s.len() as int, h));
        let mut max_pos: u16 = 0;
        let mut max_nrm: u16 = 0;
        let mut k: usize = 0;
        while k < prisms.len()
            invariant
                k <= prisms@.len(),
                max_pos == max_pos_index(prisms@.take(k as int)),
                max_nrm == max_nrm_index(prisms@.take(k as int)),
            decreases prisms@.len() - k,
        {
            let p = prisms[k];
            assert(prisms@.take(k + 1).drop_last() =~= prisms@.take(k as int));
            if p.pos_i > max_pos {
                max_pos = p.pos_i;
            }
            let mut n = p.fnrm_i;
            if p.enrm1_i > n {
                n = p.enrm1_i;
            }
            if p.enrm2_i > n {
                n = p.enrm2_i;
            }
            if p.enrm3_i > n {
                n = p.enrm3_i;
            }
            if n > max_nrm {
                max_nrm = n;
            }
            k = k + 1;
        }
        assert(prisms@.take(prisms@.len() as int) =~= prisms@);
        let position_vectors = read_vectors(data, header.pos_data_offset, max_pos as usize + 1)?;
        let normals = read_vectors(data, header.nrm_data_offset, max_nrm as usize + 1)?;
        Ok(Sections { position_vectors, normals, prisms })
    }
}


/// The inputs on which reading a KCL file is defined: a stored block offset that lies at least
/// sixteen bytes past the stored prism offset (otherwise the prism count would be negative).
pub open spec fn kcl_offsets_ordered(s: Seq<u8>) -> bool {
    s.len() >= 16 ==> be_u32(s, 12) >= be_u32(s, 8) + 16
}

/// Tells whether `data` satisfies `kcl_offsets_ordered`, so that `ParsedKcl::parse` may be called.
pub fn offsets_ordered(data: &[u8]) -> (b: bool)
    ensures
        b == kcl_offsets_ordered(data@),
{
    match (read_u32(data, 8), read_u32(data, 12)) {
        (Ok(prism), Ok(block)) => block as u64 >= prism as u64 + 16,
        _ => true,
    }
}

/// A KCL file read into its prisms and the vectors they use.
pub struct ParsedKcl {
    pub sections: Sections,
}

impl ParsedKcl {
    /// Reads the header, then the sections it points to.
    pub fn parse(data: &[u8]) -> (r: Result<ParsedKcl, String>)
        requires
            kcl_offsets_ordered(data@),
        ensures
            r is Ok <==> 16 <= data@.len() && prisms_fit(data@.len() as int, header_at(data@))
                && positions_fit(data@, header_at(data@)) && normals_fit(data@, header_at(data@)),
            r matches Ok(k) ==> sections_match(k.sections, data@, header_at(data@)),
            r matches Ok(k) ==> k.sections.prisms@.len() < 0x1000_0000,
            r matches Err(e) ==> e@ == if data@.len() < 16 {
                "Not enough data to read u32"@
            } else if !prisms_fit(data@.len() as int, header_at(data@)) {
                prisms_error(data@.len() as int, header_at(data@))
            } else {
                "Not enough data to read f32 vec"@
            },
    {
        let header = Header::parse(data)?;
        let sections = Sections::parse(data, &header)?;
        Ok(ParsedKcl { sections })
    }
}

/// The largest indices bound the indices of every prism.
proof fn lemma_max_indices_bound(ps: Seq<Prism>, i: int)
    requires
        0 <= i < ps.len(),
    ensures
        ps[i].pos_i <= max_pos_index(ps),
        prism_max_normal(ps[i]) <= max_nrm_index(ps),
    decreases ps.len(),
{
    if i < ps.len() - 1 {
        lemma_max_indices_bound(ps.drop_last(), i);
        assert(ps.drop_last()[i] == ps[i]);
    }
}

/// Every prism of sections read from `s` names a position vector and four normals that were
/// read with it, so looking them up never runs past the vectors.
pub proof fn lemma_prism_indices_in_range(sec: Sections, s: Seq<u8>, h: Header)
    requires
        sections_match(sec, s, h),
    ensures
        forall|i: int|
            0 <= i < sec.prisms@.len() ==> {
                &&& (#[trigger] sec.prisms@[i]).pos_i < sec.position_vectors@.len()
                &&& sec.prisms@[i].fnrm_i < sec.normals@.len()
                &&& sec.prisms@[i].enrm1_i < sec.normals@.len()
                &&& sec.prisms@[i].enrm2_i < sec.normals@.len()
                &&& sec.prisms@[i].enrm3_i < sec.normals@.len()
            },
{
    assert(sec.position_vectors@.len() == position_count(s, h));
    assert(sec.normals@.len() == normal_count(s, h));
    assert forall|i: int| 0 <= i < sec.prisms@.len() implies {
        &&& (#[trigger] sec.prisms@[i]).pos_i < sec.position_vectors@.len()
        &&& sec.prisms@[i].fnrm_i < sec.normals@.len()
        &&& sec.prisms@[i].enrm1_i < sec.normals@.len()
        &&& sec.prisms@[i].enrm2_i < sec.normals@.len()
        &&& sec.prisms@[i].enrm3_i < sec.normals@.len()
    } by {
        lemma_max_indices_bound(prisms_in(s, h), i);
    }
}

/// Grouping the same words in threes gives the same vectors.
proof fn lemma_grouped_unique(v1: Seq<[u32; 3]>, v2: Seq<[u32; 3]>, w: Seq<u32>)
    requires
        grouped_in_threes(v1, w),
        grouped_in_threes(v2, w),
    ensures
        v1 == v2,
{
    assert forall|j: int| 0 <= j < v1.len() implies v1[j] == v2[j] by {
        assert(v1[j][0] == v2[j][0] && v1[j][1] == v2[j][1] && v1[j][2] == v2[j][2]);
        assert(v1[j] =~= v2[j]);
    }
    assert(v1 =~= v2);
}

/// Reading the same bytes twice gives the same sections and the same surface-class groups, so
/// converting them twice writes the same OBJ and MTL text: the result depends on nothing but
/// the bytes and the header.
pub proof fn lemma_sections_determined(s: Seq<u8>, h: Header, a: Sections, b: Sections)
    requires
        sections_match(a, s, h),
        sections_match(b, s, h),
    ensures
        a.prisms@ == b.prisms@,
        a.position_vectors@ == b.position_vectors@,
        a.normals@ == b.normals@,
        spec_material_groups(a.prisms@) == spec_material_groups(b.prisms@),
{
    lemma_grouped_unique(
        a.position_vectors@,
        b.position_vectors@,
        be_u32_words(s, h.pos_data_offset as int, (3 * position_count(s, h)) as nat),
    );
    lemma_grouped_unique(
        a.normals@,
        b.normals@,
        be_u32_words(s, h.nrm_data_offset as int, (3 * normal_count(s, h)) as nat),
    );
}

/// Whether byte `x` of a file with header `h` is one of the two bytes of a prism flag word.
pub open spec fn is_flag_byte(h: Header, x: int) -> bool {
    let r = first_prism_offset(h);
    &&& r <= x
    &&& (x - r) / 16 < prism_count(h)
    &&& (x - r) % 16 >= 14
}

/// `s2` is `s1` with only the bits above the low five of some prism flag words changed: every
/// differing byte belongs to a prism flag and lies outside the position and normal vectors that
/// the prisms of `s1` use, and each flag keeps its low five bits.
pub open spec fn differ_in_flag_high_bits(s1: Seq<u8>, s2: Seq<u8>) -> bool {
    let h = header_at(s1);
    let r = first_prism_offset(h);
    &&& s1.len() == s2.len()
    &&& forall|x: int|
        0 <= x < s1.len() && #[trigger] s1[x] != s2[x] ==> {
            &&& is_flag_byte(h, x)
            &&& !(h.pos_data_offset <= x < h.pos_data_offset + 12 * position_count(s1, h))
            &&& !(h.nrm_data_offset <= x < h.nrm_data_offset + 12 * normal_count(s1, h))
        }
    &&& forall|i: int|
        0 <= i < prism_count(h) && r + 16 * i + 16 <= s1.len() ==> #[trigger] be_u16(
            s1,
            r + 16 * i + 14,
        ) % 32 == be_u16(s2, r + 16 * i + 14) % 32
}

/// A prism whose flag keeps its low five bits reads as the same prism.
proof fn lemma_prism_same(s1: Seq<u8>, s2: Seq<u8>, i: int)
    requires
        differ_in_flag_high_bits(s1, s2),
        s1.len() >= 16,
        0 <= i < prism_count(header_at(s1)),
        first_prism_offset(header_at(s1)) + 16 * i + 16 <= s1.len(),
    ensures
        prism_at(s1, first_prism_offset(header_at(s1)) + 16 * i) == prism_at(
            s2,
            first_prism_offset(header_at(s1)) + 16 * i,
        ),
{
    let h = header_at(s1);
    let r = first_prism_offset(h);
    let off = r + 16 * i;
    assert forall|t: int| 0 <= t < 14 implies #[trigger] s1[off + t] == s2[off + t] by {
        let x = off + t;
        assert((x - r) % 16 == t) by (nonlinear_arith)
            requires
                x - r == 16 * i + t,
                0 <= t < 16,
                i >= 0,
        ;
        if s1[x] != s2[x] {
            assert(is_flag_byte(h, x));
        }
    }
    assert(be_u16(s1, off + 14) % 32 == be_u16(s2, off + 14) % 32);
    assert(s1[off + 0] == s2[off + 0] && s1[off + 1] == s2[off + 1] && s1[off + 2] == s2[off + 2]
        && s1[off + 3] == s2[off + 3]);
    assert(s1[off + 4] == s2[off + 4] && s1[off + 5] == s2[off + 5] && s1[off + 6] == s2[off + 6]
        && s1[off + 7] == s2[off + 7]);
    assert(s1[off + 8] == s2[off + 8] && s1[off + 9] == s2[off + 9] && s1[off + 10] == s2[off + 10]
        && s1[off + 11] == s2[off + 11]);
    assert(s1[off + 12] == s2[off + 12] && s1[off + 13] == s2[off + 13]);
}

/// Words read from a range where two files agree are the same words.
proof fn lemma_words_same(s1: Seq<u8>, s2: Seq<u8>, off: int, count: nat)
    requires
        s1.len() == s2.len(),
        0 <= off,
        off + 4 * count <= s1.len(),
        forall|x: int| off <= x < off + 4 * count ==> s1[x] == s2[x],
    ensures
        be_u32_words(s1, off, count) == be_u32_words(s2, off, count),
{
    assert forall|j: int| 0 <= j < count implies be_u32_words(s1, off, count)[j] == be_u32_words(
        s2,
        off,
        count,
    )[j] by {
        assert(off + 4 * j + 3 < off + 4 * count);
        assert(s1[off + 4 * j] == s2[off + 4 * j]);
        assert(s1[off + 4 * j + 1] == s2[off + 4 * j + 1]);
        assert(s1[off + 4 * j + 2] == s2[off + 4 * j + 2]);
        assert(s1[off + 4 * j + 3] == s2[off + 4 * j + 3]);
    }
    assert(be_u32_words(s1, off, count) =~= be_u32_words(s2, off, count));
}

/// Only the low five bits of a prism flag matter: changing the higher bits of prism flags leaves
/// the header, every prism, the vectors read and the success of reading unchanged, so the file
/// converts to the same OBJ and MTL text.
pub proof fn lemma_flag_high_bits_ignored(s1: Seq<u8>, s2: Seq<u8>)
    requires
        differ_in_flag_high_bits(s1, s2),
    ensures
        kcl_offsets_ordered(s1) == kcl_offsets_ordered(s2),
        s1.len() >= 16 ==> header_at(s2) == header_at(s1),
        s1.len() >= 16 && kcl_offsets_ordered(s1) && prisms_fit(s1.len() as int, header_at(s1)) ==> {
            let h = header_at(s1);
            &&& prisms_in(s2, h) == prisms_in(s1, h)
            &&& positions_fit(s2, h) == positions_fit(s1, h)
            &&& normals_fit(s2, h) == normals_fit(s1, h)
            &&& positions_fit(s1, h) ==> be_u32_words(
                s2,
                h.pos_data_offset as int,
                (3 * position_count(s2, h)) as nat,
            ) == be_u32_words(s1, h.pos_data_offset as int, (3 * position_count(s1, h)) as nat)
            &&& normals_fit(s1, h) ==> be_u32_words(
                s2,
                h.nrm_data_offset as int,
                (3 * normal_count(s2, h)) as nat,
            ) == be_u32_words(s1, h.nrm_data_offset as int, (3 * normal_count(s1, h)) as nat)
        },
{
    if s1.len() >= 16 {
        let h = header_at(s1);
        let r = first_prism_offset(h);
        assert forall|x: int| 0 <= x < 16 implies s1[x] == s2[x] by {
            if s1[x] != s2[x] {
                assert(is_flag_byte(h, x));
            }
        }
        assert(header_at(s2) == h);
        if kcl_offsets_ordered(s1) && prisms_fit(s1.len() as int, h) {
            assert forall|i: int| 0 <= i < prisms_in(s1, h).len() implies prisms_in(s2, h)[i] == prisms_in(
                s1,
                h,
            )[i] by {
                assert(r + 16 * i + 16 <= r + 16 * prism_count(h)) by (nonlinear_arith)
                    requires
                        i < prism_count(h),
                ;
                lemma_prism_same(s1, s2, i);
            }
            assert(prisms_in(s2, h) =~= prisms_in(s1, h));
            let pc = position_count(s1, h);
            let nc = normal_count(s1, h);
            if positions_fit(s1, h) {
                assert forall|x: int|
                    h.pos_data_offset <= x < h.pos_data_offset + 4 * (3 * pc) as nat implies s1[x]
                    == s2[x] by {}
                lemma_words_same(s1, s2, h.pos_data_offset as int, (3 * pc) as nat);
            }
            if normals_fit(s1, h) {
                assert forall|x: int|
                    h.nrm_data_offset <= x < h.nrm_data_offset + 4 * (3 * nc) as nat implies s1[x]
                    == s2[x] by {}
                lemma_words_same(s1, s2, h.nrm_data_offset as int, (3 * nc) as nat);
            }
        }
    } else {
        assert forall|x: int| 0 <= x < s1.len() implies s1[x] == s2[x] by {
            if s1[x] != s2[x] {
                assert(is_flag_byte(header_at(s1), x));
            }
        }
        assert(s1 =~= s2);
    }
}

/// The prisms of one surface class, in file order.
pub struct MaterialGroup {
    pub base_type: BaseType,
    pub prism_indices: Vec<usize>,
}

impl View for MaterialGroup {
    type V = (BaseType, Seq<usize>);

    open spec fn view(&self) -> (BaseType, Seq<usize>) {
        (self.base_type, self.prism_indices@)
    }
}

/// The indices `0, 1, ..., n - 1`.
pub open spec fn index_seq(n: nat) -> Seq<usize> {
    Seq::new(n, |i: int| i as usize)
}

/// Whether prism `i` of `ps` belongs to surface class `b`.
pub open spec fn of_type(ps: Seq<Prism>, b: BaseType) -> spec_fn(usize) -> bool {
    |i: usize| ps[i as int].flag.base_type == b
}

/// The indices of the prisms of `ps` in surface class `b`, in increasing order.
pub open spec fn type_indices(ps: Seq<Prism>, b: BaseType) -> Seq<usize> {
    index_seq(ps.len()).filter(of_type(ps, b))
}

/// The candidate group of the surface class with code `d`.
pub open spec fn group_for(ps: Seq<Prism>, d: int) -> (BaseType, Seq<usize>) {
    (base_type_of(d), type_indices(ps, base_type_of(d)))
}

/// Whether a group holds at least one prism.
pub open spec fn nonempty_group() -> spec_fn((BaseType, Seq<usize>)) -> bool {
    |g: (BaseType, Seq<usize>)| g.1.len() > 0
}

/// The non-empty groups among the surface classes with codes below `d`, by increasing code.
pub open spec fn groups_below(ps: Seq<Prism>, d: nat) -> Seq<(BaseType, Seq<usize>)> {
    Seq::new(d, |k: int| group_for(ps, k)).filter(nonempty_group())
}

/// The surface classes that occur in `ps`, by increasing code, each with the indices of its
/// prisms in increasing order.
pub open spec fn spec_material_groups(ps: Seq<Prism>) -> Seq<(BaseType, Seq<usize>)> {
    groups_below(ps, 32)
}

/// Groups the prisms by surface class, ordered by the class code.
pub fn material_groups(prisms: &Vec<Prism>) -> (groups: Vec<MaterialGroup>)
    ensures
        groups@.map_values(|g: MaterialGroup| g@) == spec_material_groups(prisms@),
{
    let ghost ps = prisms@;
    let mut groups: Vec<MaterialGroup> = Vec::new();
    let mut d: u16 = 0;
    while d < 32
        invariant
            ps == prisms@,
            d <= 32,
            groups@.map_values(|g: MaterialGroup| g@) == groups_below(ps, d as nat),
        decreases 32 - d,
    {
        let base_type = match BaseType::from_u16(d) {
            Ok(b) => b,
            Err(_) => BaseType::Road,
        };
        assert(base_type == base_type_of(d as int));
        let mut indices: Vec<usize> = Vec::new();
        let mut i: usize = 0;
        while i < prisms.len()
            invariant
                ps == prisms@,
                i <= ps.len(),
                indices@ == index_seq(i as nat).filter(of_type(ps, base_type)),
            decreases ps.len() - i,
        {
            proof {
                assert(index_seq((i + 1) as nat) =~= index_seq(i as nat).push(i));
                index_seq(i as nat).lemma_filter_push(i, of_type(ps, base_type));
            }
            if prisms[i].flag.base_type == base_type {
                indices.push(i);
            }
            i = i + 1;
        }
        let ghost g = group_for(ps, d as int);
        assert(indices@ == g.1);
        let ghost before = groups@.map_values(|g: MaterialGroup| g@);
        proof {
            assert(Seq::new((d + 1) as nat, |k: int| group_for(ps, k)) =~= Seq::new(
                d as nat,
                |k: int| group_for(ps, k),
            ).push(g));
            Seq::new(d as nat, |k: int| group_for(ps, k)).lemma_filter_push(g, nonempty_group());
        }
        if indices.len() > 0 {
            let group = MaterialGroup { base_type, prism_indices: indices };
            groups.push(group);
            assert(groups@.map_values(|g: MaterialGroup| g@) =~= before.push(g));
        }
        d = d + 1;
    }
    groups
}


/// The OBJ and MTL texts of a converted collision model.
pub struct ObjMtlOutput {
    pub obj: String,
    pub mtl: String,
}

/// The colour of a material rendered as text: the red, green and blue components separated by
/// spaces, and the opacity.
pub struct ColorText {
    pub rgb: String,
    pub alpha: String,
}

/// The OBJ face line over the three vertices numbered from `b`.
pub open spec fn face_line(b: nat) -> Seq<char> {
    "f "@ + decimal(b) + " "@ + decimal(b + 1) + " "@ + decimal(b + 2) + "\n"@
}

/// For each prism index of `idx`, its vertex lines followed by the face over those vertices;
/// the vertices are numbered consecutively from `first`.
pub open spec fn faces_text(idx: Seq<usize>, vertex_lines: Seq<Seq<char>>, first: nat) -> Seq<char>
    decreases idx.len(),
{
    if idx.len() == 0 {
        Seq::empty()
    } else {
        faces_text(idx.drop_last(), vertex_lines, first) + vertex_lines[idx.last() as int]
            + face_line(first + 3 * (idx.len() - 1) as nat)
    }
}

/// The OBJ text of one group whose first vertex is numbered `first`.
pub open spec fn group_obj_text(
    g: (BaseType, Seq<usize>),
    vertex_lines: Seq<Seq<char>>,
    first: nat,
) -> Seq<char> {
    "g "@ + g.0.spec_name() + "\n"@ + "usemtl "@ + g.0.spec_name() + "\n"@ + faces_text(
        g.1,
        vertex_lines,
        first,
    ) + "\n"@
}

/// How many faces the groups `gs` hold together.
pub open spec fn face_total(gs: Seq<(BaseType, Seq<usize>)>) -> nat
    decreases gs.len(),
{
    if gs.len() == 0 {
        0
    } else {
        face_total(gs.drop_last()) + gs.last().1.len()
    }
}

/// The OBJ text of the groups `gs`, vertices numbered from 1 across all groups.
pub open spec fn obj_text(gs: Seq<(BaseType, Seq<usize>)>, vertex_lines: Seq<Seq<char>>) -> Seq<
    char,
>
    decreases gs.len(),
{
    if gs.len() == 0 {
        Seq::empty()
    } else {
        obj_text(gs.drop_last(), vertex_lines) + group_obj_text(
            gs.last(),
            vertex_lines,
            1 + 3 * face_total(gs.drop_last()),
        )
    }
}

/// The MTL entry of the material for surface class `b`.
pub open spec fn material_text(b: BaseType, rgb: Seq<char>, alpha: Seq<char>) -> Seq<char> {
    "newmtl "@ + b.spec_name() + "\n"@ + "Ka "@ + rgb + "\n"@ + "Kd "@ + rgb + "\n"@
        + "Ks 0.0000 0.0000 0.0000\n"@ + "Ns 32.0000\n"@ + "d "@ + alpha + "\n\n"@
}

/// The MTL text of the groups `gs`, each coloured by the entry of `colors` at its class code.
pub open spec fn mtl_text(gs: Seq<(BaseType, Seq<usize>)>, colors: Seq<(Seq<char>, Seq<char>)>) -> Seq<
    char,
>
    decreases gs.len(),
{
    if gs.len() == 0 {
        Seq::empty()
    } else {
        mtl_text(gs.drop_last(), colors) + material_text(
            gs.last().0,
            colors[gs.last().0.spec_discriminant() as int].0,
            colors[gs.last().0.spec_discriminant() as int].1,
        )
    }
}

/// The text of each string of `v`.
pub open spec fn texts(v: Seq<String>) -> Seq<Seq<char>> {
    v.map_values(|s: String| s@)
}

/// The texts of each colour of `v`.
pub open spec fn color_texts(v: Seq<ColorText>) -> Seq<(Seq<char>, Seq<char>)> {
    v.map_values(|c: ColorText| (c.rgb@, c.alpha@))
}

/// Appends the face line over the vertices numbered from `b`.
fn push_face_line(out: &mut String, b: usize)
    requires
        b + 2 <= usize::MAX,
    ensures
        final(out)@ == old(out)@ + face_line(b as nat),
{
    out.append("f ");
    push_decimal(out, b as u64);
    out.append(" ");
    push_decimal(out, (b + 1) as u64);
    out.append(" ");
    push_decimal(out, (b + 2) as u64);
    out.append("\n");
    assert(final(out)@ =~= old(out)@ + face_line(b as nat));
}

/// Appends the MTL entry of surface class `b` coloured by `color`.
fn push_material(mtl: &mut String, b: BaseType, color: &ColorText)
    ensures
        final(mtl)@ == old(mtl)@ + material_text(b, color.rgb@, color.alpha@),
{
    mtl.append("newmtl ");
    mtl.append(b.name());
    mtl.append("\n");
    mtl.append("Ka ");
    mtl.append(color.rgb.as_str());
    mtl.append("\n");
    mtl.append("Kd ");
    mtl.append(color.rgb.as_str());
    mtl.append("\n");
    mtl.append("Ks 0.0000 0.0000 0.0000\n");
    mtl.append("Ns 32.0000\n");
    mtl.append("d ");
    mtl.append(color.alpha.as_str());
    mtl.append("\n\n");
    assert(final(mtl)@ =~= old(mtl)@ + material_text(b, color.rgb@, color.alpha@));
}

/// Appends the OBJ text of `group`, its first vertex numbered `first`.
fn push_group_obj(obj: &mut String, group: &MaterialGroup, vertex_lines: &Vec<String>, first: usize)
    requires
        forall|j: int|
            0 <= j < group.prism_indices@.len() ==> #[trigger] group.prism_indices@[j]
                < vertex_lines@.len(),
        first + 3 * group.prism_indices@.len() <= usize::MAX,
    ensures
        final(obj)@ == old(obj)@ + group_obj_text(group@, texts(vertex_lines@), first as nat),
{
    let ghost vl = texts(vertex_lines@);
    let name = group.base_type.name();
    obj.append("g ");
    obj.append(name);
    obj.append("\n");
    obj.append("usemtl ");
    obj.append(name);
    obj.append("\n");
    let ghost header = obj@;
    let indices = &group.prism_indices;
    let mut vertex_offset = first;
    let mut j: usize = 0;
    while j < indices.len()
        invariant
            vl == texts(vertex_lines@),
            forall|j: int| 0 <= j < indices@.len() ==> #[trigger] indices@[j] < vertex_lines@.len(),
            first + 3 * indices@.len() <= usize::MAX,
            j <= indices@.len(),
            vertex_offset == first + 3 * j,
            obj@ == header + faces_text(indices@.take(j as int), vl, first as nat),
        decreases indices@.len() - j,
    {
        assert(indices@.take(j + 1).drop_last() =~= indices@.take(j as int));
        let i = indices[j];
        obj.append(vertex_lines[i].as_str());
        let base = vertex_offset;
        vertex_offset = vertex_offset + 3;
        push_face_line(obj, base);
        j = j + 1;
        assert(obj@ =~= header + faces_text(indices@.take(j as int), vl, first as nat));
    }
    assert(indices@.take(indices@.len() as int) =~= indices@);
    obj.append("\n");
    assert(final(obj)@ =~= old(obj)@ + group_obj_text(group@, vl, first as nat));
}

/// Renders the groups as OBJ and MTL text. `vertex_lines[i]` is the text of the three vertices
/// of prism `i`, and `colors[d]` the colour text of the surface class with code `d`. Vertices
/// are numbered from 1 in the order they are written, three per prism.
pub fn write_obj_mtl(
    groups: &Vec<MaterialGroup>,
    vertex_lines: &Vec<String>,
    colors: &Vec<ColorText>,
) -> (out: ObjMtlOutput)
    requires
        colors@.len() == 32,
        forall|k: int, j: int|
            0 <= k < groups@.len() && 0 <= j < groups@[k].prism_indices@.len()
                ==> #[trigger] groups@[k].prism_indices@[j] < vertex_lines@.len(),
        3 * face_total(groups@.map_values(|g: MaterialGroup| g@)) + 1 <= usize::MAX,
    ensures
        out.obj@ == obj_text(groups@.map_values(|g: MaterialGroup| g@), texts(vertex_lines@)),
        out.mtl@ == mtl_text(groups@.map_values(|g: MaterialGroup| g@), color_texts(colors@)),
{
    let ghost gs = groups@.map_values(|g: MaterialGroup| g@);
    let ghost vl = texts(vertex_lines@);
    let ghost cs = color_texts(colors@);
    let mut obj = String::new();
    let mut mtl = String::new();
    let mut vertex_offset: usize = 1;
    let mut k: usize = 0;
    while k < groups.len()
        invariant
            gs == groups@.map_values(|g: MaterialGroup| g@),
            vl == texts(vertex_lines@),
            cs == color_texts(colors@),
            colors@.len() == 32,
            forall|k: int, j: int|
                0 <= k < groups@.len() && 0 <= j < groups@[k].prism_indices@.len()
                    ==> #[trigger] groups@[k].prism_indices@[j] < vertex_lines@.len(),
            3 * face_total(gs) + 1 <= usize::MAX,
            k <= groups@.len(),
            vertex_offset == 1 + 3 * face_total(gs.take(k as int)),
            obj@ == obj_text(gs.take(k as int), vl),
            mtl@ == mtl_text(gs.take(k as int), cs),
        decreases groups@.len() - k,
    {
        let group = &groups[k];
        proof {
            assert(gs.take(k + 1).drop_last() =~= gs.take(k as int));
            assert(gs[k as int] == group@);
            lemma_face_total_prefix(gs, k as int);
        }
        proof {
            lemma_discriminant_roundtrip(group.base_type);
        }
        push_material(&mut mtl, group.base_type, &colors[group.base_type.discriminant() as usize]);
        push_group_obj(&mut obj, group, vertex_lines, vertex_offset);
        vertex_offset = vertex_offset + 3 * group.prism_indices.len();
        k = k + 1;
    }
    assert(gs.take(groups@.len() as int) =~= gs);
    ObjMtlOutput { obj, mtl }
}

/// The faces of the first `k + 1` groups never outnumber those of all groups.
proof fn lemma_face_total_prefix(gs: Seq<(BaseType, Seq<usize>)>, k: int)
    requires
        0 <= k < gs.len(),
    ensures
        face_total(gs.take(k + 1)) == face_total(gs.take(k)) + gs[k].1.len(),
        face_total(gs.take(k + 1)) <= face_total(gs),
    decreases gs.len() - k,
{
    assert(gs.take(k + 1).drop_last() =~= gs.take(k));
    if k + 1 < gs.len() {
        lemma_face_total_prefix(gs, k + 1);
    } else {
        assert(gs.take(k + 1) =~= gs);
    }
}


/// Splitting a predicate into two disjoint ones splits the filtered length accordingly.
proof fn lemma_filter_len_split<A>(
    s: Seq<A>,
    p: spec_fn(A) -> bool,
    q: spec_fn(A) -> bool,
    r: spec_fn(A) -> bool,
)
    requires
        forall|a: A| #[trigger] r(a) == (p(a) || q(a)),
        forall|a: A| !(#[trigger] p(a) && q(a)),
    ensures
        s.filter(r).len() == s.filter(p).len() + s.filter(q).len(),
    decreases s.len(),
{
    reveal(Seq::filter);
    if s.len() > 0 {
        lemma_filter_len_split(s.drop_last(), p, q, r);
        assert(r(s.last()) == (p(s.last()) || q(s.last())));
    }
}

/// Filtering by a predicate that every element meets keeps every element.
proof fn lemma_filter_all<A>(s: Seq<A>, p: spec_fn(A) -> bool)
    requires
        forall|a: A| #[trigger] p(a),
    ensures
        s.filter(p) == s,
    decreases s.len(),
{
    reveal(Seq::filter);
    if s.len() > 0 {
        lemma_filter_all(s.drop_last(), p);
        assert(p(s.last()));
        assert(s.drop_last().push(s.last()) =~= s);
    }
}

/// Filtering by a predicate that no element meets keeps nothing.
proof fn lemma_filter_none<A>(s: Seq<A>, p: spec_fn(A) -> bool)
    requires
        forall|a: A| !#[trigger] p(a),
    ensures
        s.filter(p).len() == 0,
    decreases s.len(),
{
    reveal(Seq::filter);
    if s.len() > 0 {
        lemma_filter_none(s.drop_last(), p);
        assert(!p(s.last()));
    }
}

/// Whether prism `i` of `ps` has a class code below `d`.
spec fn code_below(ps: Seq<Prism>, d: int) -> spec_fn(usize) -> bool {
    |i: usize| (ps[i as int].flag.base_type.spec_discriminant() as int) < d
}

/// The groups below code `d` hold exactly the prisms whose code is below `d`.
proof fn lemma_face_total_below(ps: Seq<Prism>, d: nat)
    requires
        d <= 32,
    ensures
        face_total(groups_below(ps, d)) == index_seq(ps.len()).filter(code_below(ps, d as int)).len(),
    decreases d,
{
    if d == 0 {
        assert(Seq::new(0, |k: int| group_for(ps, k)) =~= Seq::<(BaseType, Seq<usize>)>::empty());
        reveal(Seq::filter);
        lemma_filter_none(index_seq(ps.len()), code_below(ps, 0));
    } else {
        let e = (d - 1) as nat;
        lemma_face_total_below(ps, e);
        let g = group_for(ps, e as int);
        assert(Seq::new(d, |k: int| group_for(ps, k)) =~= Seq::new(e, |k: int| group_for(ps, k)).push(g));
        Seq::new(e, |k: int| group_for(ps, k)).lemma_filter_push(g, nonempty_group());
        let gb = groups_below(ps, e);
        if g.1.len() > 0 {
            assert(groups_below(ps, d) == gb.push(g));
            assert(gb.push(g).drop_last() =~= gb);
        }
        assert forall|i: usize| #[trigger] code_below(ps, d as int)(i) == (code_below(ps, e as int)(i)
            || of_type(ps, base_type_of(e as int))(i)) by {
            lemma_discriminant_roundtrip(ps[i as int].flag.base_type);
            lemma_code_roundtrip(e as int);
        }
        lemma_filter_len_split(
            index_seq(ps.len()),
            code_below(ps, e as int),
            of_type(ps, base_type_of(e as int)),
            code_below(ps, d as int),
        );
    }
}

/// Every prism index of every group names a prism.
proof fn lemma_groups_below_in_range(ps: Seq<Prism>, d: nat)
    ensures
        forall|k: int, j: int|
            0 <= k < groups_below(ps, d).len() && 0 <= j < groups_below(ps, d)[k].1.len()
                ==> #[trigger] groups_below(ps, d)[k].1[j] < ps.len(),
{
    let all = Seq::new(d, |k: int| group_for(ps, k));
    assert forall|k: int, j: int|
        0 <= k < groups_below(ps, d).len() && 0 <= j < groups_below(ps, d)[k].1.len()
            implies #[trigger] groups_below(ps, d)[k].1[j] < ps.len() by {
        let g = groups_below(ps, d)[k];
        assert(all.filter(nonempty_group()).contains(g));
        all.lemma_filter_contains_rev(nonempty_group(), g);
        let c = choose|c: int| 0 <= c < all.len() && all[c] == g;
        let x = g.1[j];
        let idx = index_seq(ps.len());
        assert(idx.filter(of_type(ps, base_type_of(c))).contains(x));
        idx.lemma_filter_contains_rev(of_type(ps, base_type_of(c)), x);
    }
}

/// Every prism is written exactly once: the groups hold as many faces as there are prisms,
/// and every index they hold names a prism.
pub proof fn lemma_groups_cover_prisms(ps: Seq<Prism>)
    ensures
        face_total(spec_material_groups(ps)) == ps.len(),
        forall|k: int, j: int|
            0 <= k < spec_material_groups(ps).len() && 0 <= j < spec_material_groups(ps)[k].1.len()
                ==> #[trigger] spec_material_groups(ps)[k].1[j] < ps.len(),
{
    lemma_face_total_below(ps, 32);
    assert forall|i: usize| #[trigger] code_below(ps, 32)(i) by {
        lemma_discriminant_roundtrip(ps[i as int].flag.base_type);
    }
    lemma_filter_all(index_seq(ps.len()), code_below(ps, 32));
    lemma_groups_below_in_range(ps, 32);
}


/// Filtering keeps a sequence that is strictly increasing under `key` strictly increasing.
proof fn lemma_filter_increasing<A>(s: Seq<A>, p: spec_fn(A) -> bool, key: spec_fn(A) -> int)
    requires
        forall|i: int, j: int| 0 <= i < j < s.len() ==> key(#[trigger] s[i]) < key(#[trigger] s[j]),
    ensures
        forall|i: int, j: int|
            0 <= i < j < s.filter(p).len() ==> key(#[trigger] s.filter(p)[i]) < key(
                #[trigger] s.filter(p)[j],
            ),
    decreases s.len(),
{
    reveal(Seq::filter);
    if s.len() > 0 {
        let rest = s.drop_last();
        lemma_filter_increasing(rest, p, key);
        let f = rest.filter(p);
        if p(s.last()) {
            assert forall|i: int, j: int|
                0 <= i < j < s.filter(p).len() implies key(#[trigger] s.filter(p)[i]) < key(
                    #[trigger] s.filter(p)[j],
                ) by {
                if j == f.len() {
                    assert(f.contains(f[i]));
                    rest.lemma_filter_contains_rev(p, f[i]);
                    let m = choose|m: int| 0 <= m < rest.len() && rest[m] == f[i];
                    assert(s[m] == rest[m]);
                } else {
                    assert(s.filter(p)[i] == f[i]);
                    assert(s.filter(p)[j] == f[j]);
                }
            }
        }
    }
}

/// Groups appear by strictly increasing class code, so no class has two groups; within a
/// group the prisms appear in file order.
pub proof fn lemma_groups_ordered(ps: Seq<Prism>)
    requires
        ps.len() <= usize::MAX,
    ensures
        forall|k1: int, k2: int|
            0 <= k1 < k2 < spec_material_groups(ps).len() ==> (
            #[trigger] spec_material_groups(ps)[k1]).0.spec_discriminant()
                < (#[trigger] spec_material_groups(ps)[k2]).0.spec_discriminant(),
        forall|k: int, j1: int, j2: int|
            0 <= k < spec_material_groups(ps).len() && 0 <= j1 < j2
                < spec_material_groups(ps)[k].1.len() ==> #[trigger] spec_material_groups(
                ps,
            )[k].1[j1] < #[trigger] spec_material_groups(ps)[k].1[j2],
{
    let all = Seq::new(32, |k: int| group_for(ps, k));
    let key = |g: (BaseType, Seq<usize>)| g.0.spec_discriminant() as int;
    assert forall|i: int, j: int| 0 <= i < j < all.len() implies key(#[trigger] all[i]) < key(
        #[trigger] all[j],
    ) by {
        lemma_code_roundtrip(i);
        lemma_code_roundtrip(j);
    }
    lemma_filter_increasing(all, nonempty_group(), key);
    assert forall|k: int, j1: int, j2: int|
        0 <= k < spec_material_groups(ps).len() && 0 <= j1 < j2
            < spec_material_groups(ps)[k].1.len() implies #[trigger] spec_material_groups(
            ps,
        )[k].1[j1] < #[trigger] spec_material_groups(ps)[k].1[j2] by {
        let g = spec_material_groups(ps)[k];
        assert(all.filter(nonempty_group()).contains(g));
        all.lemma_filter_contains_rev(nonempty_group(), g);
        let c = choose|c: int| 0 <= c < all.len() && all[c] == g;
        let idx = index_seq(ps.len());
        let ikey = |i: usize| i as int;
        assert forall|a: int, b: int| 0 <= a < b < idx.len() implies ikey(#[trigger] idx[a]) < ikey(
            #[trigger] idx[b],
        ) by {}
        lemma_filter_increasing(idx, of_type(ps, base_type_of(c)), ikey);
        assert(ikey(g.1[j1]) < ikey(g.1[j2]));
    }
}

/// Every prism lies in the group of its own surface class.
pub proof fn lemma_prism_in_own_group(ps: Seq<Prism>, i: int)
    requires
        0 <= i < ps.len(),
        ps.len() <= usize::MAX,
    ensures
        exists|k: int|
            0 <= k < spec_material_groups(ps).len() && (#[trigger] spec_material_groups(ps)[k]).0
                == ps[i].flag.base_type && spec_material_groups(ps)[k].1.contains(i as usize),
{
    let b = ps[i].flag.base_type;
    let d = b.spec_discriminant() as int;
    lemma_discriminant_roundtrip(b);
    let idx = index_seq(ps.len());
    assert(idx[i] == i as usize);
    idx.lemma_filter_contains(of_type(ps, b), i);
    let all = Seq::new(32, |k: int| group_for(ps, k));
    assert(all[d] == group_for(ps, d));
    assert(nonempty_group()(all[d]));
    all.lemma_filter_contains(nonempty_group(), d);
    let k = choose|k: int|
        0 <= k < all.filter(nonempty_group()).len() && all.filter(nonempty_group())[k] == all[d];
    assert(spec_material_groups(ps)[k] == all[d]);
}

impl ParsedKcl {
    /// Renders the collision model as OBJ and MTL text: one group and one material per surface
    /// class that occurs, by increasing class code, and one triangle per prism. `vertex_lines[i]`
    /// is the text of the three corners of prism `i`, and `colors[d]` the colour text of the
    /// surface class with code `d`.
    pub fn to_obj_mtl(&self, vertex_lines: &Vec<String>, colors: &Vec<ColorText>) -> (out: ObjMtlOutput)
        requires
            vertex_lines@.len() == self.sections.prisms@.len(),
            colors@.len() == 32,
            3 * self.sections.prisms@.len() + 1 <= usize::MAX,
        ensures
            out.obj@ == obj_text(spec_material_groups(self.sections.prisms@), texts(vertex_lines@)),
            out.mtl@ == mtl_text(spec_material_groups(self.sections.prisms@), color_texts(colors@)),
    {
        let groups = material_groups(&self.sections.prisms);
        proof {
            lemma_groups_cover_prisms(self.sections.prisms@);
            assert forall|k: int, j: int|
                0 <= k < groups@.len() && 0 <= j < groups@[k].prism_indices@.len()
                    implies #[trigger] groups@[k].prism_indices@[j] < vertex_lines@.len() by {
                assert(groups@.map_values(|g: MaterialGroup| g@)[k] == groups@[k]@);
            }
        }
        write_obj_mtl(&groups, vertex_lines, colors)
    }
}


/// The KCL surface-class table: each five-bit code names its class, the class's code, its
/// material name and its RGBA colour. Code `d` is the `d`-th class in declaration order.
pub proof fn lemma_class_table()
    ensures
        base_type_of(0) == BaseType::Road,
        BaseType::Road.spec_discriminant() == 0,
        BaseType::Road.spec_name() == "road"@,
        BaseType::Road.spec_color() == seq![255u8, 255, 255, 255],
        base_type_of(1) == BaseType::SlipperyRoad1,
        BaseType::SlipperyRoad1.spec_discriminant() == 1,
        BaseType::SlipperyRoad1.spec_name() == "slippery_road1"@,
        BaseType::SlipperyRoad1.spec_color() == seq![255u8, 230, 204, 255],
        base_type_of(2) == BaseType::WeakOffroad,
        BaseType::WeakOffroad.spec_discriminant() == 2,
        BaseType::WeakOffroad.spec_name() == "weak_offroad"@,
        BaseType::WeakOffroad.spec_color() == seq![0u8, 204, 0, 255],
        base_type_of(3) == BaseType::Offroad,
        BaseType::Offroad.spec_discriminant() == 3,
        BaseType::Offroad.spec_name() == "offroad"@,
        BaseType::Offroad.spec_color() == seq![0u8, 153, 0, 255],
        base_type_of(4) == BaseType::HeavyOffroad,
        BaseType::HeavyOffroad.spec_discriminant() == 4,
        BaseType::HeavyOffroad.spec_name() == "heavy_offroad"@,
        BaseType::HeavyOffroad.spec_color() == seq![0u8, 102, 0, 255],
        base_type_of(5) == BaseType::SlipperyRoad2,
        BaseType::SlipperyRoad2.spec_discriminant() == 5,
        BaseType::SlipperyRoad2.spec_name() == "slippery_road2"@,
        BaseType::SlipperyRoad2.spec_color() == seq![204u8, 230, 255, 255],
        base_type_of(6) == BaseType::BoostPanel,
        BaseType::BoostPanel.spec_discriminant() == 6,
        BaseType::BoostPanel.spec_name() == "boost_panel"@,
        BaseType::BoostPanel.spec_color() == seq![255u8, 128, 0, 255],
        base_type_of(7) == BaseType::BoostRamp,
        BaseType::BoostRamp.spec_discriminant() == 7,
        BaseType::BoostRamp.spec_name() == "boost_ramp"@,
        BaseType::BoostRamp.spec_color() == seq![255u8, 153, 0, 255],
        base_type_of(8) == BaseType::JumpPad,
        BaseType::JumpPad.spec_discriminant() == 8,
        BaseType::JumpPad.spec_name() == "jump_pad"@,
        BaseType::JumpPad.spec_color() == seq![255u8, 204, 0, 255],
        base_type_of(9) == BaseType::ItemRoad,
        BaseType::ItemRoad.spec_discriminant() == 9,
        BaseType::ItemRoad.spec_name() == "item_road"@,
        BaseType::ItemRoad.spec_color() == seq![230u8, 230, 255, 255],
        base_type_of(10) == BaseType::SolidFall,
        BaseType::SolidFall.spec_discriminant() == 10,
        BaseType::SolidFall.spec_name() == "solid_fall"@,
        BaseType::SolidFall.spec_color() == seq![179u8, 26, 26, 255],
        base_type_of(11) == BaseType::MovingWater,
        BaseType::MovingWater.spec_discriminant() == 11,
        BaseType::MovingWater.spec_name() == "moving_water"@,
        BaseType::MovingWater.spec_color() == seq![0u8, 128, 255, 255],
        base_type_of(12) == BaseType::Wall,
        BaseType::Wall.spec_discriminant() == 12,
        BaseType::Wall.spec_name() == "wall"@,
        BaseType::Wall.spec_color() == seq![153u8, 153, 153, 255],
        base_type_of(13) == BaseType::InvisibleWall,
        BaseType::InvisibleWall.spec_discriminant() == 13,
        BaseType::InvisibleWall.spec_name() == "invisible_wall"@,
        BaseType::InvisibleWall.spec_color() == seq![0u8, 0, 153, 200],
        base_type_of(14) == BaseType::ItemWall,
        BaseType::ItemWall.spec_discriminant() == 14,
        BaseType::ItemWall.spec_name() == "item_wall"@,
        BaseType::ItemWall.spec_color() == seq![153u8, 153, 179, 255],
        base_type_of(15) == BaseType::Wall2,
        BaseType::Wall2.spec_discriminant() == 15,
        BaseType::Wall2.spec_name() == "wall2"@,
        BaseType::Wall2.spec_color() == seq![153u8, 153, 153, 255],
        base_type_of(16) == BaseType::FallBoundary,
        BaseType::FallBoundary.spec_discriminant() == 16,
        BaseType::FallBoundary.spec_name() == "fall_boundary"@,
        BaseType::FallBoundary.spec_color() == seq![204u8, 0, 0, 255],
        base_type_of(17) == BaseType::CannonTrigger,
        BaseType::CannonTrigger.spec_discriminant() == 17,
        BaseType::CannonTrigger.spec_name() == "cannon_trigger"@,
        BaseType::CannonTrigger.spec_color() == seq![255u8, 0, 128, 255],
        base_type_of(18) == BaseType::ForceRecalculation,
        BaseType::ForceRecalculation.spec_discriminant() == 18,
        BaseType::ForceRecalculation.spec_name() == "force_recalc"@,
        BaseType::ForceRecalculation.spec_color() == seq![128u8, 0, 255, 50],
        base_type_of(19) == BaseType::HalfPipeRamp,
        BaseType::HalfPipeRamp.spec_discriminant() == 19,
        BaseType::HalfPipeRamp.spec_name() == "halfpipe_ramp"@,
        BaseType::HalfPipeRamp.spec_color() == seq![0u8, 77, 255, 255],
        base_type_of(20) == BaseType::PlayerOnlyWall,
        BaseType::PlayerOnlyWall.spec_discriminant() == 20,
        BaseType::PlayerOnlyWall.spec_name() == "player_wall"@,
        BaseType::PlayerOnlyWall.spec_color() == seq![204u8, 102, 0, 255],
        base_type_of(21) == BaseType::MovingRoad,
        BaseType::MovingRoad.spec_discriminant() == 21,
        BaseType::MovingRoad.spec_name() == "moving_road"@,
        BaseType::MovingRoad.spec_color() == seq![230u8, 230, 255, 255],
        base_type_of(22) == BaseType::StickyRoad,
        BaseType::StickyRoad.spec_discriminant() == 22,
        BaseType::StickyRoad.spec_name() == "sticky_road"@,
        BaseType::StickyRoad.spec_color() == seq![230u8, 179, 255, 255],
        base_type_of(23) == BaseType::Road2,
        BaseType::Road2.spec_discriminant() == 23,
        BaseType::Road2.spec_name() == "road2"@,
        BaseType::Road2.spec_color() == seq![255u8, 255, 255, 255],
        base_type_of(24) == BaseType::SoundTrigger,
        BaseType::SoundTrigger.spec_discriminant() == 24,
        BaseType::SoundTrigger.spec_name() == "sound_trigger"@,
        BaseType::SoundTrigger.spec_color() == seq![255u8, 0, 255, 50],
        base_type_of(25) == BaseType::WeakWall,
        BaseType::WeakWall.spec_discriminant() == 25,
        BaseType::WeakWall.spec_name() == "weak_wall"@,
        BaseType::WeakWall.spec_color() == seq![102u8, 153, 102, 255],
        base_type_of(26) == BaseType::EffectTrigger,
        BaseType::EffectTrigger.spec_discriminant() == 26,
        BaseType::EffectTrigger.spec_name() == "effect_trigger"@,
        BaseType::EffectTrigger.spec_color() == seq![204u8, 0, 255, 50],
        base_type_of(27) == BaseType::ItemStateModifier,
        BaseType::ItemStateModifier.spec_discriminant() == 27,
        BaseType::ItemStateModifier.spec_name() == "item_state"@,
        BaseType::ItemStateModifier.spec_color() == seq![255u8, 0, 255, 50],
        base_type_of(28) == BaseType::HalfPipeInvisibleWall,
        BaseType::HalfPipeInvisibleWall.spec_discriminant() == 28,
        BaseType::HalfPipeInvisibleWall.spec_name() == "halfpipe_invis"@,
        BaseType::HalfPipeInvisibleWall.spec_color() == seq![0u8, 153, 0, 200],
        base_type_of(29) == BaseType::RotatingRoad,
        BaseType::RotatingRoad.spec_discriminant() == 29,
        BaseType::RotatingRoad.spec_name() == "rotating_road"@,
        BaseType::RotatingRoad.spec_color() == seq![230u8, 230, 255, 255],
        base_type_of(30) == BaseType::SpecialWall,
        BaseType::SpecialWall.spec_discriminant() == 30,
        BaseType::SpecialWall.spec_name() == "special_wall"@,
        BaseType::SpecialWall.spec_color() == seq![204u8, 179, 204, 255],
        base_type_of(31) == BaseType::InvisibleWall2,
        BaseType::InvisibleWall2.spec_discriminant() == 31,
        BaseType::InvisibleWall2.spec_name() == "invisible_wall2"@,
        BaseType::InvisibleWall2.spec_color() == seq![0u8, 0, 153, 200],
{
}


} // verus!
