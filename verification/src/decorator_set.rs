//! Decorator sets: what foliage is drawn, and how it varies.
//!
//! Reals are held by their bit patterns.
use crate::decal_system::REAL_ONE;
use crate::file::TagFile;
use crate::reads::{
    block_of, elements_named, int_or, low_byte, low_signed_word, low_word, read_int_or,
    read_real_or, read_rgb, read_string_id_or_empty, read_tag_ref_path_or_empty, real_or,
    reference_path_or_empty, rgb_named, string_id_or_empty,
};
use crate::tag::{StructView, TagBlock, TagStruct};
use crate::text::{lemma_texts_push, no_texts, texts};
use vstd::prelude::*;

verus! {

/// The group of decorator sets, `dctr`.
pub const DECORATOR_SET_GROUP: u32 = 0x6463_7472;

/// The bit patterns of the reals 0.5, 5, 7 and 12.
pub const REAL_HALF: u32 = 0x3f00_0000;

pub const REAL_FIVE: u32 = 0x40a0_0000;

pub const REAL_SEVEN: u32 = 0x40e0_0000;

pub const REAL_TWELVE: u32 = 0x4140_0000;

/// The render flag for foliage that is drawn from both sides.
pub const TWO_SIDED: u8 = 1;

/// The render flag for foliage whose lighting is not sampled through geometry.
pub const DONT_SAMPLE_LIGHTING_THROUGH_GEOMETRY: u8 = 2;

/// Why a tag is no decorator set.
#[derive(Clone, Copy, Debug, PartialEq, Eq, Structural)]
pub enum DecoratorSetError {
    WrongGroup { expected: u32, actual: u32 },
}

/// The shader that draws a decorator.
#[derive(Clone, Copy, Debug, PartialEq, Eq, Structural, Default)]
pub enum RenderShader {
    #[default]
    WindDynamicLights,
    DynamicLights,
    Static,
    DominantLightOnly,
    WavyDynamicLights,
    ShadedDynamicLights,
}

/// The shader with the number `v`; the last for every number beyond.
pub open spec fn shader_of(v: u8) -> RenderShader {
    if v == 0 {
        RenderShader::WindDynamicLights
    } else if v == 1 {
        RenderShader::DynamicLights
    } else if v == 2 {
        RenderShader::Static
    } else if v == 3 {
        RenderShader::DominantLightOnly
    } else if v == 4 {
        RenderShader::WavyDynamicLights
    } else {
        RenderShader::ShadedDynamicLights
    }
}

impl RenderShader {
    pub fn from_u8(v: u8) -> (r: RenderShader)
        ensures
            r == shader_of(v),
    {
        match v {
            0 => RenderShader::WindDynamicLights,
            1 => RenderShader::DynamicLights,
            2 => RenderShader::Static,
            3 => RenderShader::DominantLightOnly,
            4 => RenderShader::WavyDynamicLights,
            _ => RenderShader::ShadedDynamicLights,
        }
    }
}

/// Where the lighting of a decorator is sampled.
#[derive(Clone, Copy, Debug, PartialEq, Eq, Structural, Default)]
pub enum LightingSamplePattern {
    #[default]
    Ground,
    Hanging,
}

/// The pattern with the number `v`: one hangs, all others stand.
pub open spec fn pattern_of(v: u8) -> LightingSamplePattern {
    if v == 1 {
        LightingSamplePattern::Hanging
    } else {
        LightingSamplePattern::Ground
    }
}

impl LightingSamplePattern {
    pub fn from_u8(v: u8) -> (r: LightingSamplePattern)
        ensures
            r == pattern_of(v),
    {
        if v == 1 {
            LightingSamplePattern::Hanging
        } else {
            LightingSamplePattern::Ground
        }
    }
}

/// One type of decorator in a set.
#[derive(Debug, PartialEq, Eq, Default)]
pub struct DecoratorType {
    pub name: String,
    pub index: i32,
    /// The mesh of the render model, or minus one.
    pub mesh: i32,
    pub flags: u32,
    pub color_0: (u32, u32, u32),
    pub color_1: (u32, u32, u32),
    pub color_2: (u32, u32, u32),
    pub scale_min: u32,
    pub scale_max: u32,
    pub tilt_min: u32,
    pub tilt_max: u32,
    pub wind_min: u32,
    pub wind_max: u32,
    pub ground_tint_min: u32,
    pub ground_tint_max: u32,
    pub hover_min: u32,
    pub hover_max: u32,
    pub minimum_distance_between_decorators: u32,
}

impl Clone for DecoratorType {
    fn clone(&self) -> (r: Self)
        ensures
            r.name@ == self.name@,
            r.index == self.index,
            r.mesh == self.mesh,
            r.flags == self.flags,
            r.color_0 == self.color_0,
            r.color_1 == self.color_1,
            r.color_2 == self.color_2,
            r.scale_min == self.scale_min,
            r.scale_max == self.scale_max,
            r.tilt_min == self.tilt_min,
            r.tilt_max == self.tilt_max,
            r.wind_min == self.wind_min,
            r.wind_max == self.wind_max,
            r.ground_tint_min == self.ground_tint_min,
            r.ground_tint_max == self.ground_tint_max,
            r.hover_min == self.hover_min,
            r.hover_max == self.hover_max,
            r.minimum_distance_between_decorators == self.minimum_distance_between_decorators,
    {
        DecoratorType {
            name: self.name.clone(),
            index: self.index,
            mesh: self.mesh,
            flags: self.flags,
            color_0: self.color_0,
            color_1: self.color_1,
            color_2: self.color_2,
            scale_min: self.scale_min,
            scale_max: self.scale_max,
            tilt_min: self.tilt_min,
            tilt_max: self.tilt_max,
            wind_min: self.wind_min,
            wind_max: self.wind_max,
            ground_tint_min: self.ground_tint_min,
            ground_tint_max: self.ground_tint_max,
            hover_min: self.hover_min,
            hover_max: self.hover_max,
            minimum_distance_between_decorators: self.minimum_distance_between_decorators,
        }
    }
}

impl DecoratorType {
    /// Whether the type is the one that `s` holds.
    pub open spec fn is_of(self, s: StructView) -> bool {
        &&& self.name@ == string_id_or_empty(s, "name"@)
        &&& self.index == int_or(s, "index"@, 0) as i32
        &&& self.mesh == int_or(s, "mesh"@, -1) as i32
        &&& self.flags == int_or(s, "flags"@, 0) as u32
        &&& self.color_0 == rgb_named(s, "color 0"@)
        &&& self.color_1 == rgb_named(s, "color 1"@)
        &&& self.color_2 == rgb_named(s, "color 2"@)
        &&& self.scale_min == real_or(s, "scale min"@, REAL_ONE)
        &&& self.scale_max == real_or(s, "scale max"@, REAL_ONE)
        &&& self.tilt_min == real_or(s, "tilt min"@, 0)
        &&& self.tilt_max == real_or(s, "tilt max"@, 0)
        &&& self.wind_min == real_or(s, "wind min"@, 0)
        &&& self.wind_max == real_or(s, "wind max"@, 0)
        &&& self.ground_tint_min == real_or(s, "ground tint min"@, 0)
        &&& self.ground_tint_max == real_or(s, "ground tint max"@, 0)
        &&& self.hover_min == real_or(s, "hover min"@, 0)
        &&& self.hover_max == real_or(s, "hover max"@, 0)
        &&& self.minimum_distance_between_decorators == real_or(s, "minimum distance between decorators"@, 0)
    }

    /// The type that a struct holds.
    pub fn from_struct(s: &TagStruct) -> (r: DecoratorType)
        ensures
            r.is_of(s@),
    {
        DecoratorType {
            name: read_string_id_or_empty(s, "name"),
            index: low_signed_word(read_int_or(s, "index", 0)),
            mesh: low_signed_word(read_int_or(s, "mesh", -1)),
            flags: low_word(read_int_or(s, "flags", 0)),
            color_0: read_rgb(s, "color 0"),
            color_1: read_rgb(s, "color 1"),
            color_2: read_rgb(s, "color 2"),
            scale_min: read_real_or(s, "scale min", REAL_ONE),
            scale_max: read_real_or(s, "scale max", REAL_ONE),
            tilt_min: read_real_or(s, "tilt min", 0),
            tilt_max: read_real_or(s, "tilt max", 0),
            wind_min: read_real_or(s, "wind min", 0),
            wind_max: read_real_or(s, "wind max", 0),
            ground_tint_min: read_real_or(s, "ground tint min", 0),
            ground_tint_max: read_real_or(s, "ground tint max", 0),
            hover_min: read_real_or(s, "hover min", 0),
            hover_max: read_real_or(s, "hover max", 0),
            minimum_distance_between_decorators: read_real_or(s, "minimum distance between decorators", 0),
        }
    }
}

/// A decorator set.
#[derive(Clone, Debug, PartialEq, Eq, Default)]
pub struct DecoratorSet {
    pub render_model_path: String,
    pub render_model_instance_names: Vec<String>,
    pub render_model_instance_name_valid_count: i32,
    pub texture_path: String,
    pub render_flags: u8,
    pub render_shader: RenderShader,
    pub lighting_sample_pattern: LightingSamplePattern,
    pub translucency: u32,
    pub translucency_a: u32,
    pub translucency_b: u32,
    pub translucency_c: u32,
    pub wavelength_x: u32,
    pub wavelength_y: u32,
    pub wave_speed: u32,
    pub wave_frequency: u32,
    pub shaded_dark: u32,
    pub shaded_bright: u32,
    pub start_fade_distance: u32,
    pub end_fade_distance: u32,
    pub early_cull: u32,
    pub cull_block_size: u32,
    pub decorator_types: Vec<DecoratorType>,
}

/// The names of the instances.
pub open spec fn instance_names(elements: Seq<StructView>) -> Seq<Seq<char>> {
    Seq::new(elements.len(), |i: int| string_id_or_empty(elements[i], "name"@))
}

fn read_instance_names(block: &TagBlock) -> (r: Vec<String>)
    ensures
        texts(r@) == instance_names(block@.elements),
{
    let n: usize = block.len();
    let mut r: Vec<String> = no_texts();
    let mut i: usize = 0;
    while i < n
        invariant
            i <= n,
            n == block@.elements.len(),
            texts(r@) == instance_names(block@.elements).take(i as int),
        decreases n - i,
    {
        let name: String = read_string_id_or_empty(block.at(i), "name");
        proof {
            lemma_texts_push(r@, name);
        }
        r.push(name);
        i = i + 1;
        assert(texts(r@) =~= instance_names(block@.elements).take(i as int));
    }
    assert(texts(r@) =~= instance_names(block@.elements));
    r
}

fn read_types(block: &TagBlock) -> (r: Vec<DecoratorType>)
    ensures
        r@.len() == block@.elements.len(),
        forall|i: int| 0 <= i < r@.len() ==> (#[trigger] r@[i]).is_of(block@.elements[i]),
{
    let n: usize = block.len();
    let mut r: Vec<DecoratorType> = Vec::new();
    let mut i: usize = 0;
    while i < n
        invariant
            i <= n,
            n == block@.elements.len(),
            r@.len() == i,
            forall|j: int| 0 <= j < i ==> (#[trigger] r@[j]).is_of(block@.elements[j]),
        decreases n - i,
    {
        r.push(DecoratorType::from_struct(block.at(i)));
        i = i + 1;
    }
    r
}

impl DecoratorSet {
    /// Whether the set is the one that `s` holds.
    pub open spec fn is_of(self, s: StructView) -> bool {
        &&& self.render_model_path@ == reference_path_or_empty(s, "render model"@)
        &&& texts(self.render_model_instance_names@) == instance_names(
            elements_named(s, "render model instance names"@),
        )
        &&& self.render_model_instance_name_valid_count == int_or(
            s,
            "render model instance name valid count"@,
            0,
        ) as i32
        &&& self.texture_path@ == reference_path_or_empty(s, "texture"@)
        &&& self.render_flags == int_or(s, "render flags"@, 0) as u8
        &&& self.render_shader == shader_of(int_or(s, "render shader"@, 0) as u8)
        &&& self.lighting_sample_pattern == pattern_of(
            int_or(s, "light sampling pattern"@, 0) as u8,
        )
        &&& self.translucency == real_or(s, "translucency"@, REAL_HALF)
        &&& self.translucency_a == real_or(s, "translucency A"@, 0)
        &&& self.translucency_b == real_or(s, "translucency B"@, 0)
        &&& self.translucency_c == real_or(s, "translucency C"@, 0)
        &&& self.wavelength_x == real_or(s, "wavelength X"@, 0)
        &&& self.wavelength_y == real_or(s, "wavelength Y"@, 0)
        &&& self.wave_speed == real_or(s, "wave speed"@, 0)
        &&& self.wave_frequency == real_or(s, "wave frequency"@, 0)
        &&& self.shaded_dark == real_or(s, "shaded dark"@, REAL_HALF)
        &&& self.shaded_bright == real_or(s, "shaded bright"@, REAL_ONE)
        &&& self.start_fade_distance == real_or(s, "start fade"@, REAL_SEVEN)
        &&& self.end_fade_distance == real_or(s, "end fade"@, REAL_TWELVE)
        &&& self.early_cull == real_or(s, "early cull"@, 0)
        &&& self.cull_block_size == real_or(s, "cull block size"@, REAL_FIVE)
        &&& self.decorator_types@.len() == elements_named(s, "decorator types"@).len()
        &&& forall|i: int|
            0 <= i < self.decorator_types@.len() ==> (#[trigger] self.decorator_types@[i]).is_of(
                elements_named(s, "decorator types"@)[i],
            )
    }

    /// The set that a struct holds.
    pub fn from_struct(s: &TagStruct) -> (r: DecoratorSet)
        ensures
            r.is_of(s@),
    {
        let render_model_instance_names: Vec<String> = match block_of(
            s,
            "render model instance names",
        ) {
            Some(block) => read_instance_names(block),
            None => no_texts(),
        };
        let decorator_types: Vec<DecoratorType> = match block_of(s, "decorator types") {
            Some(block) => read_types(block),
            None => Vec::new(),
        };
        assert(texts(render_model_instance_names@) =~= instance_names(
            elements_named(s@, "render model instance names"@),
        ));
        DecoratorSet {
            render_model_path: read_tag_ref_path_or_empty(s, "render model"),
            render_model_instance_names,
            render_model_instance_name_valid_count: low_signed_word(
                read_int_or(s, "render model instance name valid count", 0),
            ),
            texture_path: read_tag_ref_path_or_empty(s, "texture"),
            render_flags: low_byte(read_int_or(s, "render flags", 0)),
            render_shader: RenderShader::from_u8(low_byte(read_int_or(s, "render shader", 0))),
            lighting_sample_pattern: LightingSamplePattern::from_u8(
                low_byte(read_int_or(s, "light sampling pattern", 0)),
            ),
            translucency: read_real_or(s, "translucency", REAL_HALF),
            translucency_a: read_real_or(s, "translucency A", 0),
            translucency_b: read_real_or(s, "translucency B", 0),
            translucency_c: read_real_or(s, "translucency C", 0),
            wavelength_x: read_real_or(s, "wavelength X", 0),
            wavelength_y: read_real_or(s, "wavelength Y", 0),
            wave_speed: read_real_or(s, "wave speed", 0),
            wave_frequency: read_real_or(s, "wave frequency", 0),
            shaded_dark: read_real_or(s, "shaded dark", REAL_HALF),
            shaded_bright: read_real_or(s, "shaded bright", REAL_ONE),
            start_fade_distance: read_real_or(s, "start fade", REAL_SEVEN),
            end_fade_distance: read_real_or(s, "end fade", REAL_TWELVE),
            early_cull: read_real_or(s, "early cull", 0),
            cull_block_size: read_real_or(s, "cull block size", REAL_FIVE),
            decorator_types,
        }
    }

    /// The set that a tag holds.
    pub fn from_tag(tag: &TagFile) -> (r: Result<DecoratorSet, DecoratorSetError>)
        ensures
            match r {
                Ok(set) => tag.header.group_tag == DECORATOR_SET_GROUP && set.is_of(tag.root@),
                Err(e) => tag.header.group_tag != DECORATOR_SET_GROUP && e == (
                DecoratorSetError::WrongGroup {
                    expected: DECORATOR_SET_GROUP,
                    actual: tag.header.group_tag,
                }),
            },
    {
        if tag.header.group_tag != DECORATOR_SET_GROUP {
            return Err(
                DecoratorSetError::WrongGroup {
                    expected: DECORATOR_SET_GROUP,
                    actual: tag.header.group_tag,
                },
            );
        }
        Ok(DecoratorSet::from_struct(&tag.root))
    }

    /// Whether the lowest render flag is set.
    pub fn is_two_sided(&self) -> (r: bool)
        ensures
            r == (self.render_flags % 2 == 1),
    {
        let flags: u8 = self.render_flags;
        assert((flags & 1 != 0) == (flags % 2 == 1)) by (bit_vector);
        (self.render_flags & TWO_SIDED) != 0
    }

    /// Whether the second render flag is set.
    pub fn dont_sample_lighting_through_geometry(&self) -> (r: bool)
        ensures
            r == ((self.render_flags / 2) % 2 == 1),
    {
        let flags: u8 = self.render_flags;
        assert((flags & 2 != 0) == ((flags / 2) % 2 == 1)) by (bit_vector);
        (self.render_flags & DONT_SAMPLE_LIGHTING_THROUGH_GEOMETRY) != 0
    }
}

}
