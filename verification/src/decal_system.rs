//! Decal systems: what a palette entry of decals says.
//!
//! Reals are held by their bit patterns.
use crate::file::TagFile;
use crate::reads::{
    block_of, bounds_named, descend, either_real_or, elements_named, int_named, int_or,
    low_signed_word, low_word, read_either_real_or, read_int_any, read_int_or, read_real_bounds,
    read_real_or, read_string_id, read_string_id_or_empty, real_or, string_id_named,
    string_id_or_empty, struct_named,
};
use crate::tag::{StructView, TagBlock, TagStruct};
use vstd::prelude::*;

verus! {

/// The group of decal systems, `decs`.
pub const DECS_GROUP: u32 = 0x6465_6373;

/// The group of decal shaders, `rmd `.
pub const DECAL_SHADER_GROUP: u32 = 0x726d_6420;

/// The bit patterns of the reals 1 and 90.
pub const REAL_ONE: u32 = 0x3f80_0000;

pub const REAL_NINETY: u32 = 0x42b4_0000;

/// Why a tag is no decal system. `E` is why a shader cannot be parsed.
#[derive(Clone, Debug, PartialEq, Eq)]
pub enum DecalSystemError<E> {
    WrongGroup { expected: u32, actual: u32 },
    RenderMethod(E),
}

/// The pass in which a decal is drawn.
#[derive(Clone, Copy, Debug, PartialEq, Eq, Structural, Default)]
pub enum DecalPass {
    /// Drawn with the surface, and lit with it.
    #[default]
    PreLighting,
    /// Drawn over the lit surface.
    PostLighting,
}

/// The pass with the number `i`: one is behind the lighting, all others before.
pub open spec fn pass_of(i: int) -> DecalPass {
    if i == 1 {
        DecalPass::PostLighting
    } else {
        DecalPass::PreLighting
    }
}

impl DecalPass {
    pub fn from_index(i: i64) -> (r: DecalPass)
        ensures
            r == pass_of(i as int),
    {
        match i {
            1 => DecalPass::PostLighting,
            _ => DecalPass::PreLighting,
        }
    }
}

/// The shader of a decal: what was parsed, as a shader of the group.
#[derive(Clone, Debug, PartialEq, Eq, Default)]
pub struct DecalShader<M> {
    pub group_tag: u32,
    pub method: M,
}

/// One decal of a system. `M` is what a shader is parsed into.
#[derive(Debug, PartialEq, Eq, Default)]
pub struct DecalDefinition<M> {
    pub name: String,
    pub flags: u32,
    pub shader: Option<DecalShader<M>>,
    pub radius: (u32, u32),
    pub decay_time: (u32, u32),
    pub lifespan: (u32, u32),
    pub clamp_angle_degrees: u32,
    pub cull_angle_degrees: u32,
    pub pass: DecalPass,
    pub specular_multiplier: u32,
    pub bitmap_aspect: u32,
}

impl<M: Clone> Clone for DecalDefinition<M> {
    fn clone(&self) -> (r: Self)
        ensures
            r.name@ == self.name@,
            r.flags == self.flags,
            match (self.shader, r.shader) {
                (Some(a), Some(b)) => a.group_tag == b.group_tag && cloned(a.method, b.method),
                (None, None) => true,
                _ => false,
            },
            r.radius == self.radius,
            r.decay_time == self.decay_time,
            r.lifespan == self.lifespan,
            r.clamp_angle_degrees == self.clamp_angle_degrees,
            r.cull_angle_degrees == self.cull_angle_degrees,
            r.pass == self.pass,
            r.specular_multiplier == self.specular_multiplier,
            r.bitmap_aspect == self.bitmap_aspect,
    {
        DecalDefinition {
            name: self.name.clone(),
            flags: self.flags,
            shader: match &self.shader {
                Some(shader) => Some(
                    DecalShader { group_tag: shader.group_tag, method: shader.method.clone() },
                ),
                None => None,
            },
            radius: self.radius,
            decay_time: self.decay_time,
            lifespan: self.lifespan,
            clamp_angle_degrees: self.clamp_angle_degrees,
            cull_angle_degrees: self.cull_angle_degrees,
            pass: self.pass,
            specular_multiplier: self.specular_multiplier,
            bitmap_aspect: self.bitmap_aspect,
        }
    }
}

/// A decal system.
#[derive(Debug, PartialEq, Eq, Default)]
pub struct DecalSystem<M> {
    pub flags: u32,
    /// How many decals may overlap; zero for any number.
    pub max_overlapping: i32,
    pub overlapping_threshold: u32,
    pub distance_fade_range: (u32, u32),
    pub runtime_max_radius: u32,
    pub definitions: Vec<DecalDefinition<M>>,
}

/// The settings of a decal's shader.
pub open spec fn shader_named(s: StructView) -> Option<StructView> {
    match struct_named(s, "actual shader"@) {
        Some(n) => Some(n),
        None => struct_named(s, "actual shader?"@),
    }
}

/// The number of a decal's pass.
pub open spec fn pass_number(s: StructView) -> int {
    match int_named(s, "runtime pass"@) {
        Some(n) => n,
        None => int_or(s, "runtime pass!"@, 0),
    }
}

/// The name of a decal.
pub open spec fn decal_name(s: StructView) -> Seq<char> {
    match string_id_named(s, "decal name"@) {
        Some(text) => text,
        None => string_id_or_empty(s, "decal name^"@),
    }
}

impl<M: Clone> Clone for DecalSystem<M> {
    fn clone(&self) -> (r: Self)
        ensures
            r.flags == self.flags,
            r.max_overlapping == self.max_overlapping,
            r.overlapping_threshold == self.overlapping_threshold,
            r.distance_fade_range == self.distance_fade_range,
            r.runtime_max_radius == self.runtime_max_radius,
            r.definitions@.len() == self.definitions@.len(),
            forall|i: int|
                0 <= i < self.definitions@.len() ==> cloned(
                    #[trigger] self.definitions@[i],
                    r.definitions@[i],
                ),
    {
        DecalSystem {
            flags: self.flags,
            max_overlapping: self.max_overlapping,
            overlapping_threshold: self.overlapping_threshold,
            distance_fade_range: self.distance_fade_range,
            runtime_max_radius: self.runtime_max_radius,
            definitions: self.definitions.clone(),
        }
    }
}

/// The struct of a decal's shader, which a parser of shaders is given.
pub fn shader_struct<'a>(s: &'a TagStruct) -> (r: Option<&'a TagStruct>)
    ensures
        match r {
            Some(n) => shader_named(s@) == Some(n@),
            None => shader_named(s@) is None,
        },
{
    match descend(s, "actual shader") {
        Some(n) => Some(n),
        None => descend(s, "actual shader?"),
    }
}

fn read_pass(s: &TagStruct) -> (r: DecalPass)
    ensures
        r == pass_of(pass_number(s@)),
{
    let number: i128 = match read_int_any(s, "runtime pass") {
        Some(n) => n,
        None => read_int_or(s, "runtime pass!", 0),
    };
    if number == 1 {
        DecalPass::from_index(1)
    } else {
        DecalPass::from_index(0)
    }
}

fn read_decal_name(s: &TagStruct) -> (r: String)
    ensures
        r@ == decal_name(s@),
{
    match read_string_id(s, "decal name") {
        Some(text) => text,
        None => read_string_id_or_empty(s, "decal name^"),
    }
}

impl<M> DecalDefinition<M> {
    /// Whether the decal is the one that `s` holds, its shader apart.
    pub open spec fn is_of(self, s: StructView) -> bool {
        &&& self.name@ == decal_name(s)
        &&& self.flags == int_or(s, "flags"@, 0) as u32
        &&& self.radius == bounds_named(s, "radius"@)
        &&& self.decay_time == bounds_named(s, "decay time"@)
        &&& self.lifespan == bounds_named(s, "lifespan"@)
        &&& self.clamp_angle_degrees == real_or(s, "clamp angle"@, REAL_NINETY)
        &&& self.cull_angle_degrees == real_or(s, "cull angle"@, REAL_NINETY)
        &&& self.pass == pass_of(pass_number(s))
        &&& self.specular_multiplier == either_real_or(
            s,
            "runtime specular_multiplier"@,
            "runtime specular_multiplier!"@,
            REAL_ONE,
        )
        &&& self.bitmap_aspect == either_real_or(
            s,
            "runtime bitmap aspect"@,
            "runtime bitmap aspect!"@,
            REAL_ONE,
        )
    }

    /// Whether the decal has the shader that was parsed, where `s` holds one.
    pub open spec fn has_shader(self, s: StructView, method: M) -> bool {
        if shader_named(s) is Some {
            self.shader == Some(DecalShader { group_tag: DECAL_SHADER_GROUP, method })
        } else {
            self.shader is None
        }
    }

    /// The decal that a struct holds. `parsed` is what parsing its shader gives: the
    /// one of [`shader_struct`]. Without a shader it is not looked at.
    pub fn from_struct<E>(s: &TagStruct, parsed: Result<M, E>) -> (r: Result<
        DecalDefinition<M>,
        DecalSystemError<E>,
    >)
        ensures
            match (shader_named(s@), parsed) {
                (Some(_), Err(e)) => r == Err::<DecalDefinition<M>, DecalSystemError<E>>(
                    DecalSystemError::RenderMethod(e),
                ),
                (Some(_), Ok(method)) => r matches Ok(decal) && decal.is_of(s@)
                    && decal.has_shader(s@, method),
                (None, _) => r matches Ok(decal) && decal.is_of(s@) && decal.shader is None,
            },
    {
        let shader: Option<DecalShader<M>> = match shader_struct(s) {
            Some(_) => match parsed {
                Ok(method) => Some(DecalShader { group_tag: DECAL_SHADER_GROUP, method }),
                Err(e) => {
                    return Err(DecalSystemError::RenderMethod(e));
                },
            },
            None => None,
        };
        Ok(
            DecalDefinition {
                name: read_decal_name(s),
                flags: low_word(read_int_or(s, "flags", 0)),
                shader,
                radius: read_real_bounds(s, "radius"),
                decay_time: read_real_bounds(s, "decay time"),
                lifespan: read_real_bounds(s, "lifespan"),
                clamp_angle_degrees: read_real_or(s, "clamp angle", REAL_NINETY),
                cull_angle_degrees: read_real_or(s, "cull angle", REAL_NINETY),
                pass: read_pass(s),
                specular_multiplier: read_either_real_or(
                    s,
                    "runtime specular_multiplier",
                    "runtime specular_multiplier!",
                    REAL_ONE,
                ),
                bitmap_aspect: read_either_real_or(
                    s,
                    "runtime bitmap aspect",
                    "runtime bitmap aspect!",
                    REAL_ONE,
                ),
            },
        )
    }
}

/// Whether the decals are those of the elements, with the shaders that were parsed.
pub open spec fn are_of<M, E>(
    list: Seq<DecalDefinition<M>>,
    elements: Seq<StructView>,
    parsed: Seq<Result<M, E>>,
) -> bool {
    &&& list.len() == elements.len()
    &&& forall|i: int|
        0 <= i < list.len() ==> (#[trigger] list[i]).is_of(elements[i]) && list[i].has_shader(
            elements[i],
            parsed[i]->Ok_0,
        )
}

/// The first of the decals, from `i` on, whose shader could not be parsed.
pub open spec fn unparsed_from<M, E>(
    elements: Seq<StructView>,
    parsed: Seq<Result<M, E>>,
    i: nat,
) -> Option<nat>
    decreases elements.len() - i,
{
    if i >= elements.len() {
        None
    } else if shader_named(elements[i as int]) is Some && parsed[i as int] is Err {
        Some(i)
    } else {
        unparsed_from(elements, parsed, i + 1)
    }
}

/// The first outcome of a list, taken off it.
fn take_first<M, E>(parsed: &mut Vec<Result<M, E>>) -> (r: Result<M, E>)
    requires
        old(parsed)@.len() > 0,
    ensures
        r == old(parsed)@[0],
        final(parsed)@ == old(parsed)@.skip(1),
{
    let r: Result<M, E> = parsed.remove(0);
    assert(parsed@ =~= old(parsed)@.skip(1));
    r
}

fn read_definitions<M, E>(block: &TagBlock, parsed: Vec<Result<M, E>>) -> (r: Result<
    Vec<DecalDefinition<M>>,
    DecalSystemError<E>,
>)
    requires
        block@.elements.len() <= parsed@.len(),
    ensures
        match (unparsed_from(block@.elements, parsed@, 0), r) {
            (Some(i), Err(e)) => e == DecalSystemError::<E>::RenderMethod(
                parsed@[i as int]->Err_0,
            ),
            (None, Ok(list)) => are_of(list@, block@.elements, parsed@),
            _ => false,
        },
{
    let ghost all = parsed@;
    let ghost elements = block@.elements;
    let mut rest: Vec<Result<M, E>> = parsed;
    assert(rest@ =~= all.skip(0));
    let n: usize = block.len();
    let mut list: Vec<DecalDefinition<M>> = Vec::new();
    let mut i: usize = 0;
    while i < n
        invariant
            i <= n,
            elements == block@.elements,
            n == elements.len(),
            n <= all.len(),
            rest@ == all.skip(i as int),
            all == parsed@,
            unparsed_from(elements, all, 0) == unparsed_from(elements, all, i as nat),
            are_of(list@, elements.take(i as int), all),
        decreases n - i,
    {
        let outcome: Result<M, E> = take_first(&mut rest);
        assert(outcome == all[i as int]);
        assert(rest@ =~= all.skip(i + 1));
        match DecalDefinition::from_struct(block.at(i), outcome) {
            Ok(decal) => {
                list.push(decal);
            },
            Err(e) => {
                return Err(e);
            },
        }
        i = i + 1;
        assert(are_of(list@, elements.take(i as int), all));
    }
    assert(unparsed_from(elements, all, n as nat) is None);
    assert(elements.take(n as int) =~= elements);
    Ok(list)
}

/// The decals of a system.
pub open spec fn decals_of(s: StructView) -> Seq<StructView> {
    elements_named(s, "decals"@)
}

impl<M> DecalSystem<M> {
    /// Whether the system is the one that `s` holds, with the shaders that were
    /// parsed.
    pub open spec fn is_of<E>(self, s: StructView, parsed: Seq<Result<M, E>>) -> bool {
        &&& self.flags == int_or(s, "flags"@, 0) as u32
        &&& self.max_overlapping == int_or(s, "max overlapping"@, 0) as i32
        &&& self.overlapping_threshold == real_or(s, "overlapping threshold"@, 0)
        &&& self.distance_fade_range == bounds_named(s, "distance fade range"@)
        &&& self.runtime_max_radius == either_real_or(
            s,
            "runtime max radius"@,
            "runtime max radius!"@,
            0,
        )
        &&& are_of(self.definitions@, decals_of(s), parsed)
    }

    /// The system that a struct holds. `parsed` is what parsing the shader of each
    /// decal gives; it is not looked at for one without.
    pub fn from_struct<E>(s: &TagStruct, parsed: Vec<Result<M, E>>) -> (r: Result<
        DecalSystem<M>,
        DecalSystemError<E>,
    >)
        requires
            decals_of(s@).len() <= parsed@.len(),
        ensures
            match (unparsed_from(decals_of(s@), parsed@, 0), r) {
                (Some(i), Err(e)) => e == DecalSystemError::<E>::RenderMethod(
                    parsed@[i as int]->Err_0,
                ),
                (None, Ok(system)) => system.is_of(s@, parsed@),
                _ => false,
            },
    {
        let definitions: Vec<DecalDefinition<M>> = match block_of(s, "decals") {
            Some(block) => match read_definitions(block, parsed) {
                Ok(list) => list,
                Err(e) => {
                    return Err(e);
                },
            },
            None => Vec::new(),
        };
        Ok(
            DecalSystem {
                flags: low_word(read_int_or(s, "flags", 0)),
                max_overlapping: low_signed_word(read_int_or(s, "max overlapping", 0)),
                overlapping_threshold: read_real_or(s, "overlapping threshold", 0),
                distance_fade_range: read_real_bounds(s, "distance fade range"),
                runtime_max_radius: read_either_real_or(
                    s,
                    "runtime max radius",
                    "runtime max radius!",
                    0,
                ),
                definitions,
            },
        )
    }

    /// The system that a tag holds.
    pub fn from_tag<E>(tag: &TagFile, parsed: Vec<Result<M, E>>) -> (r: Result<
        DecalSystem<M>,
        DecalSystemError<E>,
    >)
        requires
            decals_of(tag.root@).len() <= parsed@.len(),
        ensures
            if tag.header.group_tag != DECS_GROUP {
                r == Err::<DecalSystem<M>, DecalSystemError<E>>(
                    DecalSystemError::WrongGroup {
                        expected: DECS_GROUP,
                        actual: tag.header.group_tag,
                    },
                )
            } else {
                match (unparsed_from(decals_of(tag.root@), parsed@, 0), r) {
                    (Some(i), Err(e)) => e == DecalSystemError::<E>::RenderMethod(
                        parsed@[i as int]->Err_0,
                    ),
                    (None, Ok(system)) => system.is_of(tag.root@, parsed@),
                    _ => false,
                }
            },
    {
        if tag.header.group_tag != DECS_GROUP {
            return Err(
                DecalSystemError::WrongGroup {
                    expected: DECS_GROUP,
                    actual: tag.header.group_tag,
                },
            );
        }
        DecalSystem::from_struct(&tag.root, parsed)
    }
}

}
