//! Decorators and decals: every number comes from the field of its own name.
use crate::decal_system::{
    DecalDefinition, DecalPass, DecalShader, DecalSystem, shader_named, unparsed_from,
};
use crate::decorator_set::{
    DecoratorSet, DecoratorType, LightingSamplePattern, RenderShader, instance_names,
};
use crate::fields::{FieldValue, TagFieldType};
use crate::reads::{
    bounds_named, elements_named, int_named, real_named, reference_path_or_empty, rgb_named,
    string_id_named, string_id_or_empty, struct_named, value_named,
};
use crate::tag::StructView;
use crate::text::texts;
use vstd::prelude::*;

verus! {

/// A decorator type is what the fields of its element say, each under its own name; what is
/// missing is zero, but for the two scales, which are one, and the mesh, which is none.
pub proof fn a_decorator_type_reads_its_own_fields(d: DecoratorType, s: StructView)
    requires
        d.is_of(s),
    ensures
        string_id_named(s, "name"@) matches Some(text) ==> d.name@ == text,
        string_id_named(s, "name"@) is None ==> d.name@.len() == 0,
        int_named(s, "index"@) matches Some(n) ==> (i32::MIN <= n <= i32::MAX
            ==> d.index == n),
        int_named(s, "mesh"@) matches Some(n) ==> (i32::MIN <= n <= i32::MAX
            ==> d.mesh == n),
        int_named(s, "mesh"@) is None ==> d.mesh == -1,
        int_named(s, "flags"@) matches Some(n) ==> (0 <= n <= u32::MAX
            ==> d.flags == n),
        d.color_0 == rgb_named(s, "color 0"@),
        d.color_1 == rgb_named(s, "color 1"@),
        d.color_2 == rgb_named(s, "color 2"@),
        real_named(s, "scale min"@) matches Some(bits) ==> d.scale_min == bits,
        real_named(s, "scale min"@) is None ==> d.scale_min == 0x3f80_0000,
        real_named(s, "scale max"@) matches Some(bits) ==> d.scale_max == bits,
        real_named(s, "scale max"@) is None ==> d.scale_max == 0x3f80_0000,
        real_named(s, "tilt min"@) matches Some(bits) ==> d.tilt_min == bits,
        real_named(s, "tilt min"@) is None ==> d.tilt_min == 0,
        real_named(s, "tilt max"@) matches Some(bits) ==> d.tilt_max == bits,
        real_named(s, "tilt max"@) is None ==> d.tilt_max == 0,
        real_named(s, "wind min"@) matches Some(bits) ==> d.wind_min == bits,
        real_named(s, "wind min"@) is None ==> d.wind_min == 0,
        real_named(s, "wind max"@) matches Some(bits) ==> d.wind_max == bits,
        real_named(s, "wind max"@) is None ==> d.wind_max == 0,
        real_named(s, "ground tint min"@) matches Some(bits) ==> d.ground_tint_min == bits,
        real_named(s, "ground tint min"@) is None ==> d.ground_tint_min == 0,
        real_named(s, "ground tint max"@) matches Some(bits) ==> d.ground_tint_max == bits,
        real_named(s, "ground tint max"@) is None ==> d.ground_tint_max == 0,
        real_named(s, "hover min"@) matches Some(bits) ==> d.hover_min == bits,
        real_named(s, "hover min"@) is None ==> d.hover_min == 0,
        real_named(s, "hover max"@) matches Some(bits) ==> d.hover_max == bits,
        real_named(s, "hover max"@) is None ==> d.hover_max == 0,
        real_named(s, "minimum distance between decorators"@) matches Some(bits)
            ==> d.minimum_distance_between_decorators == bits,
        real_named(s, "minimum distance between decorators"@) is None
            ==> d.minimum_distance_between_decorators == 0,
{
}

/// A decorator set is what the fields of its tag say, each under its own name, and its
/// types and instance names are those of the elements at the same places.
pub proof fn a_decorator_set_reads_its_own_fields(d: DecoratorSet, s: StructView)
    requires
        d.is_of(s),
    ensures
        d.render_model_path@ == reference_path_or_empty(s, "render model"@),
        d.texture_path@ == reference_path_or_empty(s, "texture"@),
        forall|i: int|
            0 <= i < elements_named(s, "render model instance names"@).len() ==> (
            #[trigger] d.render_model_instance_names@[i])@ == string_id_or_empty(
                elements_named(s, "render model instance names"@)[i],
                "name"@,
            ),
        int_named(s, "render model instance name valid count"@) matches Some(n) ==> (i32::MIN <= n <= i32::MAX
            ==> d.render_model_instance_name_valid_count == n),
        int_named(s, "render flags"@) matches Some(n) ==> (0 <= n <= u8::MAX
            ==> d.render_flags == n),
        int_named(s, "render shader"@) == Some(0int) ==> d.render_shader == RenderShader::WindDynamicLights,
        int_named(s, "render shader"@) == Some(1int) ==> d.render_shader == RenderShader::DynamicLights,
        int_named(s, "render shader"@) == Some(2int) ==> d.render_shader == RenderShader::Static,
        int_named(s, "render shader"@) == Some(3int) ==> d.render_shader == RenderShader::DominantLightOnly,
        int_named(s, "render shader"@) == Some(4int) ==> d.render_shader == RenderShader::WavyDynamicLights,
        int_named(s, "render shader"@) matches Some(n) ==> (5 <= n <= u8::MAX
            ==> d.render_shader == RenderShader::ShadedDynamicLights),
        int_named(s, "light sampling pattern"@) == Some(0int)
            ==> d.lighting_sample_pattern == LightingSamplePattern::Ground,
        int_named(s, "light sampling pattern"@) == Some(1int)
            ==> d.lighting_sample_pattern == LightingSamplePattern::Hanging,
        real_named(s, "translucency"@) matches Some(bits) ==> d.translucency == bits,
        real_named(s, "translucency"@) is None ==> d.translucency == 0x3f00_0000,
        real_named(s, "translucency A"@) matches Some(bits) ==> d.translucency_a == bits,
        real_named(s, "translucency A"@) is None ==> d.translucency_a == 0,
        real_named(s, "translucency B"@) matches Some(bits) ==> d.translucency_b == bits,
        real_named(s, "translucency B"@) is None ==> d.translucency_b == 0,
        real_named(s, "translucency C"@) matches Some(bits) ==> d.translucency_c == bits,
        real_named(s, "translucency C"@) is None ==> d.translucency_c == 0,
        real_named(s, "wavelength X"@) matches Some(bits) ==> d.wavelength_x == bits,
        real_named(s, "wavelength X"@) is None ==> d.wavelength_x == 0,
        real_named(s, "wavelength Y"@) matches Some(bits) ==> d.wavelength_y == bits,
        real_named(s, "wavelength Y"@) is None ==> d.wavelength_y == 0,
        real_named(s, "wave speed"@) matches Some(bits) ==> d.wave_speed == bits,
        real_named(s, "wave speed"@) is None ==> d.wave_speed == 0,
        real_named(s, "wave frequency"@) matches Some(bits) ==> d.wave_frequency == bits,
        real_named(s, "wave frequency"@) is None ==> d.wave_frequency == 0,
        real_named(s, "shaded dark"@) matches Some(bits) ==> d.shaded_dark == bits,
        real_named(s, "shaded dark"@) is None ==> d.shaded_dark == 0x3f00_0000,
        real_named(s, "shaded bright"@) matches Some(bits) ==> d.shaded_bright == bits,
        real_named(s, "shaded bright"@) is None ==> d.shaded_bright == 0x3f80_0000,
        real_named(s, "start fade"@) matches Some(bits) ==> d.start_fade_distance == bits,
        real_named(s, "start fade"@) is None ==> d.start_fade_distance == 0x40e0_0000,
        real_named(s, "end fade"@) matches Some(bits) ==> d.end_fade_distance == bits,
        real_named(s, "end fade"@) is None ==> d.end_fade_distance == 0x4140_0000,
        real_named(s, "early cull"@) matches Some(bits) ==> d.early_cull == bits,
        real_named(s, "early cull"@) is None ==> d.early_cull == 0,
        real_named(s, "cull block size"@) matches Some(bits) ==> d.cull_block_size == bits,
        real_named(s, "cull block size"@) is None ==> d.cull_block_size == 0x40a0_0000,
        forall|i: int|
            0 <= i < elements_named(s, "decorator types"@).len() ==> (
            #[trigger] d.decorator_types@[i]).is_of(elements_named(s, "decorator types"@)[i]),
{
    let names = elements_named(s, "render model instance names"@);
    assert(texts(d.render_model_instance_names@).len() == names.len());
    assert(texts(d.render_model_instance_names@).len() == d.render_model_instance_names@.len());
    assert forall|i: int| 0 <= i < names.len() implies (
    #[trigger] d.render_model_instance_names@[i])@ == string_id_or_empty(names[i], "name"@) by {
        assert(texts(d.render_model_instance_names@)[i] == instance_names(names)[i]);
    }
}

/// A decal is what the fields of its element say, each under its own name; angles that are
/// missing are ninety degrees.
pub proof fn a_decal_reads_its_own_fields<M>(d: DecalDefinition<M>, s: StructView)
    requires
        d.is_of(s),
    ensures
        string_id_named(s, "decal name"@) matches Some(text) ==> d.name@ == text,
        int_named(s, "flags"@) matches Some(n) ==> (0 <= n <= u32::MAX
            ==> d.flags == n),
        d.radius == bounds_named(s, "radius"@),
        d.decay_time == bounds_named(s, "decay time"@),
        d.lifespan == bounds_named(s, "lifespan"@),
        real_named(s, "clamp angle"@) matches Some(bits) ==> d.clamp_angle_degrees == bits,
        real_named(s, "clamp angle"@) is None ==> d.clamp_angle_degrees == 0x42b4_0000,
        real_named(s, "cull angle"@) matches Some(bits) ==> d.cull_angle_degrees == bits,
        real_named(s, "cull angle"@) is None ==> d.cull_angle_degrees == 0x42b4_0000,
        int_named(s, "runtime pass"@) == Some(0int) ==> d.pass == DecalPass::PreLighting,
        int_named(s, "runtime pass"@) == Some(1int) ==> d.pass == DecalPass::PostLighting,
        real_named(s, "runtime specular_multiplier"@) matches Some(bits) ==> d.specular_multiplier == bits,
        real_named(s, "runtime bitmap aspect"@) matches Some(bits) ==> d.bitmap_aspect == bits,
        real_named(s, "runtime specular_multiplier"@) is None ==> (real_named(
            s,
            "runtime specular_multiplier!"@,
        ) matches Some(bits) ==> d.specular_multiplier == bits),
        real_named(s, "runtime bitmap aspect"@) is None ==> (real_named(
            s,
            "runtime bitmap aspect!"@,
        ) matches Some(bits) ==> d.bitmap_aspect == bits),
{
}

/// A decal system is what the fields of its tag say, and its decals are those of the
/// elements at the same places, each with the shader that was parsed for it.
pub proof fn a_decal_system_reads_its_own_fields<M, E>(
    d: DecalSystem<M>,
    s: StructView,
    parsed: Seq<Result<M, E>>,
)
    requires
        d.is_of(s, parsed),
    ensures
        int_named(s, "flags"@) matches Some(n) ==> (0 <= n <= u32::MAX
            ==> d.flags == n),
        int_named(s, "max overlapping"@) matches Some(n) ==> (i32::MIN <= n <= i32::MAX
            ==> d.max_overlapping == n),
        real_named(s, "overlapping threshold"@) matches Some(bits) ==> d.overlapping_threshold
            == bits,
        d.distance_fade_range == bounds_named(s, "distance fade range"@),
        real_named(s, "runtime max radius"@) matches Some(bits) ==> d.runtime_max_radius == bits,
        d.definitions@.len() == elements_named(s, "decals"@).len(),
        forall|i: int|
            0 <= i < elements_named(s, "decals"@).len() ==> (#[trigger] d.definitions@[i]).is_of(
                elements_named(s, "decals"@)[i],
            ),
        forall|i: int|
            0 <= i < elements_named(s, "decals"@).len() && struct_named(
                elements_named(s, "decals"@)[i],
                "actual shader"@,
            ) is Some ==> (#[trigger] d.definitions@[i]).shader == Some(
                DecalShader { group_tag: 0x726d_6420u32, method: parsed[i]->Ok_0 },
            ),
{
}

/// Bounds and colours are read in their order.
pub proof fn bounds_and_colours_are_read_in_order(s: StructView, name: Seq<char>, bits: Seq<u32>)
    ensures
        value_named(s, name) == Some(
            FieldValue::Reals { kind: TagFieldType::RealBounds, bits },
        ) ==> bounds_named(s, name) == (bits[0], bits[1]),
        value_named(s, name) == Some(
            FieldValue::Reals { kind: TagFieldType::RealRgbColor, bits },
        ) ==> rgb_named(s, name) == (bits[0], bits[1], bits[2]),
{
}

/// A decal system that cannot be read is refused for the first decal whose shader cannot
/// be; a decal without a shader refuses nothing.
pub proof fn the_first_unreadable_shader_refuses<M, E>(
    elements: Seq<StructView>,
    parsed: Seq<Result<M, E>>,
    from: nat,
)
    ensures
        match unparsed_from(elements, parsed, from) {
            Some(k) => from <= k < elements.len() && parsed[k as int] is Err && shader_named(
                elements[k as int],
            ) is Some && forall|j: int|
                from <= j < k ==> parsed[j] is Ok || shader_named(#[trigger] elements[j]) is None,
            None => forall|j: int|
                from <= j < elements.len() ==> parsed[j] is Ok || shader_named(
                    #[trigger] elements[j],
                ) is None,
        },
    decreases elements.len() - from,
{
    if from < elements.len() && !(shader_named(elements[from as int]) is Some
        && parsed[from as int] is Err) {
        the_first_unreadable_shader_refuses(elements, parsed, from + 1);
    }
}

}
