//! The vocabulary of scene files: the kinds of lights and objects, the
//! attribute names each accepts, and the checks that a scene as a whole
//! must pass.
use vstd::prelude::*;
use vstd::string::*;
use crate::text;

verus! {

#[verifier::external_type_specification]
#[verifier::external_body]
pub struct ExConfig(config::Config);

/// The kinds of light that a scene may hold.
#[derive(Clone, Copy, Debug, PartialEq, Eq, Structural)]
pub enum LightKind {
    Omni,
    Ambiant,
    Directional,
}

/// The attributes that a light's table may set.
#[derive(Clone, Copy, Debug, PartialEq, Eq, Structural)]
pub enum LightAttribute {
    Color,
    Position,
    Intensity,
    Orientation,
}

/// The kinds of object that a scene may hold.
#[derive(Clone, Copy, Debug, PartialEq, Eq, Structural)]
pub enum ObjectKind {
    Sphere,
    Cylinder,
    Cone,
    Plane,
    Menger,
    Triangle,
    Cuboid,
    ObjFile,
}

/// The attributes that an object's table may set.
#[derive(Clone, Copy, Debug, PartialEq, Eq, Structural)]
pub enum ObjectAttribute {
    Color,
    Position,
    Radius,
    Angle,
    Apex,
    Limited,
    Reflectiveness,
    Transparency,
    RefractiveIndex,
    Level,
    Orientation,
    V0,
    V1,
    V2,
    Dimensions,
    Path,
}

/// The two ways a table may name the axes of a vector.
#[derive(Clone, Copy, Debug, PartialEq, Eq, Structural)]
pub enum VectorAxes {
    /// `depth`, `right` and `up`.
    Domain,
    /// `x`, `y` and `z`.
    Xyz,
}

pub open spec fn light_kind_named(name: Seq<char>) -> Option<LightKind> {
    if name == "omni"@ {
        Some(LightKind::Omni)
    } else if name == "ambiant"@ {
        Some(LightKind::Ambiant)
    } else if name == "directional"@ {
        Some(LightKind::Directional)
    } else {
        None
    }
}

pub open spec fn light_attribute_named(key: Seq<char>) -> Option<LightAttribute> {
    if key == "color"@ {
        Some(LightAttribute::Color)
    } else if key == "position"@ {
        Some(LightAttribute::Position)
    } else if key == "intensity"@ {
        Some(LightAttribute::Intensity)
    } else if key == "normal"@ || key == "orientation"@ || key == "direction"@ {
        Some(LightAttribute::Orientation)
    } else {
        None
    }
}

pub open spec fn object_kind_named(name: Seq<char>) -> Option<ObjectKind> {
    if name == "sphere"@ {
        Some(ObjectKind::Sphere)
    } else if name == "cylinder"@ {
        Some(ObjectKind::Cylinder)
    } else if name == "cone"@ {
        Some(ObjectKind::Cone)
    } else if name == "plane"@ {
        Some(ObjectKind::Plane)
    } else if name == "menger"@ {
        Some(ObjectKind::Menger)
    } else if name == "triangle"@ {
        Some(ObjectKind::Triangle)
    } else if name == "cuboid"@ {
        Some(ObjectKind::Cuboid)
    } else if name == "obj_file"@ {
        Some(ObjectKind::ObjFile)
    } else {
        None
    }
}

pub open spec fn object_attribute_named(key: Seq<char>) -> Option<ObjectAttribute> {
    if key == "color"@ {
        Some(ObjectAttribute::Color)
    } else if key == "position"@ {
        Some(ObjectAttribute::Position)
    } else if key == "radius"@ || key == "size"@ {
        Some(ObjectAttribute::Radius)
    } else if key == "angle"@ {
        Some(ObjectAttribute::Angle)
    } else if key == "apex"@ {
        Some(ObjectAttribute::Apex)
    } else if key == "limited"@ {
        Some(ObjectAttribute::Limited)
    } else if key == "reflectiveness"@ || key == "reflectivity"@ || key == "reflective"@ {
        Some(ObjectAttribute::Reflectiveness)
    } else if key == "transparency"@ {
        Some(ObjectAttribute::Transparency)
    } else if key == "ior"@ || key == "refractive_index"@ || key == "index_of_refraction"@ {
        Some(ObjectAttribute::RefractiveIndex)
    } else if key == "level"@ {
        Some(ObjectAttribute::Level)
    } else if key == "normal"@ || key == "orientation"@ || key == "direction"@ {
        Some(ObjectAttribute::Orientation)
    } else if key == "v0"@ || key == "vertex0"@ {
        Some(ObjectAttribute::V0)
    } else if key == "v1"@ || key == "vertex1"@ {
        Some(ObjectAttribute::V1)
    } else if key == "v2"@ || key == "vertex2"@ {
        Some(ObjectAttribute::V2)
    } else if key == "dimensions"@ || key == "dimension"@ {
        Some(ObjectAttribute::Dimensions)
    } else if key == "path"@ {
        Some(ObjectAttribute::Path)
    } else {
        None
    }
}

/// `r` is `Ok` with the entry that `looked_up` names, or, where it names
/// none, the error `<prefix><word>`.
pub open spec fn named_or_error<K>(
    r: Result<K, String>,
    looked_up: Option<K>,
    prefix: Seq<char>,
    word: Seq<char>,
) -> bool {
    match r {
        Ok(k) => looked_up == Some(k),
        Err(e) => looked_up is None && e@ == prefix + word,
    }
}

fn unknown(prefix: &str, word: &str) -> (e: String)
    ensures
        e@ == prefix@ + word@,
{
    let mut e = prefix.to_owned();
    e.append(word);
    e
}

impl LightKind {
    /// The kind of light of a `[lights]` table name.
    pub fn from_name(name: &str) -> (r: Result<LightKind, String>)
        ensures
            named_or_error(r, light_kind_named(name@), "Unknown light type: "@, name@),
    {
        if text::same_text(name, "omni") {
            Ok(LightKind::Omni)
        } else if text::same_text(name, "ambiant") {
            Ok(LightKind::Ambiant)
        } else if text::same_text(name, "directional") {
            Ok(LightKind::Directional)
        } else {
            Err(unknown("Unknown light type: ", name))
        }
    }
}

impl LightAttribute {
    /// The attribute that a key of a light's table sets.
    pub fn from_key(key: &str) -> (r: Result<LightAttribute, String>)
        ensures
            named_or_error(r, light_attribute_named(key@), "Unknown light attribute: "@, key@),
    {
        if text::same_text(key, "color") {
            Ok(LightAttribute::Color)
        } else if text::same_text(key, "position") {
            Ok(LightAttribute::Position)
        } else if text::same_text(key, "intensity") {
            Ok(LightAttribute::Intensity)
        } else if text::same_text(key, "normal") || text::same_text(key, "orientation")
            || text::same_text(key, "direction") {
            Ok(LightAttribute::Orientation)
        } else {
            Err(unknown("Unknown light attribute: ", key))
        }
    }
}

impl ObjectKind {
    /// The kind of object of an `[objects]` table name.
    pub fn from_name(name: &str) -> (r: Result<ObjectKind, String>)
        ensures
            named_or_error(r, object_kind_named(name@), "Unknown object type: "@, name@),
    {
        if text::same_text(name, "sphere") {
            Ok(ObjectKind::Sphere)
        } else if text::same_text(name, "cylinder") {
            Ok(ObjectKind::Cylinder)
        } else if text::same_text(name, "cone") {
            Ok(ObjectKind::Cone)
        } else if text::same_text(name, "plane") {
            Ok(ObjectKind::Plane)
        } else if text::same_text(name, "menger") {
            Ok(ObjectKind::Menger)
        } else if text::same_text(name, "triangle") {
            Ok(ObjectKind::Triangle)
        } else if text::same_text(name, "cuboid") {
            Ok(ObjectKind::Cuboid)
        } else if text::same_text(name, "obj_file") {
            Ok(ObjectKind::ObjFile)
        } else {
            Err(unknown("Unknown object type: ", name))
        }
    }
}

impl ObjectAttribute {
    /// The attribute that a key of an object's table sets.
    pub fn from_key(key: &str) -> (r: Result<ObjectAttribute, String>)
        ensures
            named_or_error(r, object_attribute_named(key@), "Unknown object attribute: "@, key@),
    {
        if text::same_text(key, "color") {
            Ok(ObjectAttribute::Color)
        } else if text::same_text(key, "position") {
            Ok(ObjectAttribute::Position)
        } else if text::same_text(key, "radius") || text::same_text(key, "size") {
            Ok(ObjectAttribute::Radius)
        } else if text::same_text(key, "angle") {
            Ok(ObjectAttribute::Angle)
        } else if text::same_text(key, "apex") {
            Ok(ObjectAttribute::Apex)
        } else if text::same_text(key, "limited") {
            Ok(ObjectAttribute::Limited)
        } else if text::same_text(key, "reflectiveness") || text::same_text(key, "reflectivity")
            || text::same_text(key, "reflective") {
            Ok(ObjectAttribute::Reflectiveness)
        } else if text::same_text(key, "transparency") {
            Ok(ObjectAttribute::Transparency)
        } else if text::same_text(key, "ior") || text::same_text(key, "refractive_index")
            || text::same_text(key, "index_of_refraction") {
            Ok(ObjectAttribute::RefractiveIndex)
        } else if text::same_text(key, "level") {
            Ok(ObjectAttribute::Level)
        } else if text::same_text(key, "normal") || text::same_text(key, "orientation")
            || text::same_text(key, "direction") {
            Ok(ObjectAttribute::Orientation)
        } else if text::same_text(key, "v0") || text::same_text(key, "vertex0") {
            Ok(ObjectAttribute::V0)
        } else if text::same_text(key, "v1") || text::same_text(key, "vertex1") {
            Ok(ObjectAttribute::V1)
        } else if text::same_text(key, "v2") || text::same_text(key, "vertex2") {
            Ok(ObjectAttribute::V2)
        } else if text::same_text(key, "dimensions") || text::same_text(key, "dimension") {
            Ok(ObjectAttribute::Dimensions)
        } else if text::same_text(key, "path") {
            Ok(ObjectAttribute::Path)
        } else {
            Err(unknown("Unknown object attribute: ", key))
        }
    }
}

/// The error that reports a light or an object (`what`) of type
/// `kind_name` that could not be built.
pub fn build_error(what: &str, kind_name: &str, cause: &str) -> (e: String)
    ensures
        e@ == "Error building "@ + what@ + " of type '"@ + kind_name@ + "': "@ + cause@,
{
    let mut e = "Error building ".to_owned();
    e.append(what);
    e.append(" of type '");
    e.append(kind_name);
    e.append("': ");
    e.append(cause);
    e
}

/// How many of the kinds are ambient lights.
pub open spec fn ambient_count(kinds: Seq<LightKind>) -> nat
    decreases kinds.len(),
{
    if kinds.len() == 0 {
        0
    } else {
        ambient_count(kinds.drop_last()) + if kinds.last() == LightKind::Ambiant {
            1nat
        } else {
            0nat
        }
    }
}

/// The ambient lights among the kinds, in their order.
pub open spec fn ambient_lights(kinds: Seq<LightKind>) -> Seq<LightKind> {
    kinds.filter(|k: LightKind| k == LightKind::Ambiant)
}

/// The count of ambient lights is the number of kinds that are
/// `LightKind::Ambiant`, and no light of another kind counts.
pub proof fn lemma_ambient_count_is_filter(kinds: Seq<LightKind>)
    ensures
        ambient_count(kinds) == ambient_lights(kinds).len(),
        ambient_count(kinds) <= kinds.len(),
        (forall|i: int| 0 <= i < kinds.len() ==> #[trigger] kinds[i] != LightKind::Ambiant)
            ==> ambient_count(kinds) == 0,
    decreases kinds.len(),
{
    reveal(Seq::filter);
    if kinds.len() > 0 {
        lemma_ambient_count_is_filter(kinds.drop_last());
        if forall|i: int| 0 <= i < kinds.len() ==> #[trigger] kinds[i] != LightKind::Ambiant {
            assert forall|i: int| 0 <= i < kinds.drop_last().len() implies #[trigger] kinds.drop_last()[i]
                != LightKind::Ambiant by {
                assert(kinds.drop_last()[i] == kinds[i]);
            }
            assert(kinds[kinds.len() - 1] != LightKind::Ambiant);
        }
    }
}

/// A scene may hold at most one ambient light.
pub fn check_lights(kinds: &Vec<LightKind>) -> (r: Result<(), String>)
    ensures
        r is Ok <==> ambient_count(kinds@) <= 1,
        r is Ok <==> ambient_lights(kinds@).len() <= 1,
        r matches Err(e) ==> e@ == "Only one ambient light is allowed."@,
{
    proof {
        lemma_ambient_count_is_filter(kinds@);
    }
    let mut count: usize = 0;
    let mut i: usize = 0;
    assert(kinds@.take(0) =~= Seq::<LightKind>::empty());
    while i < kinds.len()
        invariant
            i <= kinds@.len(),
            count == ambient_count(kinds@.take(i as int)),
            count <= i,
        decreases kinds@.len() - i,
    {
        assert(kinds@.take(i + 1).drop_last() =~= kinds@.take(i as int));
        if kinds[i] == LightKind::Ambiant {
            count += 1;
        }
        i += 1;
    }
    assert(kinds@.take(kinds@.len() as int) =~= kinds@);
    if count > 1 {
        Err("Only one ambient light is allowed.".to_owned())
    } else {
        Ok(())
    }
}

/// A render size from the scene file: the integer it holds where that is a
/// valid `usize`, else the default.
pub open spec fn dimension_or(raw: Option<i64>, default: usize) -> usize {
    match raw {
        Some(v) => if 0 <= v && v <= usize::MAX {
            v as usize
        } else {
            default
        },
        None => default,
    }
}

pub fn dimension_or_default(raw: Option<i64>, default: usize) -> (d: usize)
    ensures
        d == dimension_or(raw, default),
{
    match raw {
        Some(v) => {
            if 0 <= v && (v as u64) <= (usize::MAX as u64) {
                v as usize
            } else {
                default
            }
        },
        None => default,
    }
}

/// The frame of a scene: an error where the scene has no `[camera]`
/// section, else the image width and height, 800 by 600 by default.
pub open spec fn frame_of(has_camera: bool, width: Option<i64>, height: Option<i64>) -> Result<
    (usize, usize),
    Seq<char>,
> {
    if !has_camera {
        Err("Missing required [camera] section"@)
    } else {
        Ok((dimension_or(width, 800), dimension_or(height, 600)))
    }
}

/// The frame of a scene, from whether it has a camera section and the
/// integers it gives for the render width and height.
pub fn frame_from(has_camera: bool, width: Option<i64>, height: Option<i64>) -> (r: Result<
    (usize, usize),
    String,
>)
    ensures
        match r {
            Ok(size) => frame_of(has_camera, width, height) == Ok::<(usize, usize), Seq<char>>(
                size,
            ),
            Err(e) => frame_of(has_camera, width, height) == Err::<(usize, usize), Seq<char>>(
                e@,
            ),
        },
{
    if !has_camera {
        return Err("Missing required [camera] section".to_owned());
    }
    Ok((dimension_or_default(width, 800), dimension_or_default(height, 600)))
}

/// What `Config::get_int` gives for `key`, `None` where it reports an
/// error. The configuration's files are loaded into the `Config` value
/// before it is asked, and the lookup reads only that value and the key.
pub uninterp spec fn config_int_of(settings: config::Config, key: Seq<char>) -> Option<i64>;

/// Whether `Config::get_table` finds a table at `key`; like
/// `config_int_of`, a function of the `Config` value and the key.
pub uninterp spec fn config_table_of(settings: config::Config, key: Seq<char>) -> bool;

/// Calls `Config::get_int`; `None` where it reports an error. The result
/// is named `config_int_of` of the configuration and the key; what that
/// lookup finds is left unsaid.
#[verifier::external_body]
fn config_int(settings: &config::Config, key: &str) -> (r: Option<i64>)
    ensures
        r == config_int_of(*settings, key@),
{
    settings.get_int(key).ok()
}

/// Calls `Config::get_table` and tells whether it found a table. The result
/// is named `config_table_of` of the configuration and the key; what that
/// lookup finds is left unsaid.
#[verifier::external_body]
fn config_has_table(settings: &config::Config, key: &str) -> (b: bool)
    ensures
        b == config_table_of(*settings, key@),
{
    settings.get_table(key).is_ok()
}

/// The frame that a loaded configuration gives: whether it has a
/// `camera` table, and the integers at `render.width` and `render.height`.
pub open spec fn scene_frame_of(settings: config::Config) -> Result<(usize, usize), Seq<char>> {
    frame_of(
        config_table_of(settings, "camera"@),
        config_int_of(settings, "render.width"@),
        config_int_of(settings, "render.height"@),
    )
}

/// The frame of a loaded scene: whether it has a `[camera]` section, and
/// its `render.width` and `render.height`.
pub fn scene_frame(settings: &config::Config) -> (r: Result<(usize, usize), String>)
    ensures
        match r {
            Ok(size) => scene_frame_of(*settings) == Ok::<(usize, usize), Seq<char>>(size),
            Err(e) => scene_frame_of(*settings) == Err::<(usize, usize), Seq<char>>(e@),
        },
{
    let has_camera = config_has_table(settings, "camera");
    let width = config_int(settings, "render.width");
    let height = config_int(settings, "render.height");
    frame_from(has_camera, width, height)
}

/// The axes that a table names a vector by: `depth`, `right` and `up`, or
/// else `x`, `y` and `z`; an error where it names both.
pub open spec fn vector_axes_of(keys: Seq<Seq<char>>) -> Result<VectorAxes, Seq<char>> {
    let domain = keys.contains("depth"@) || keys.contains("right"@) || keys.contains("up"@);
    let xyz = keys.contains("x"@) || keys.contains("y"@) || keys.contains("z"@);
    if domain && xyz {
        Err("Vec3 must use either {depth,right,up} or {x,y,z}, not both"@)
    } else if domain {
        Ok(VectorAxes::Domain)
    } else {
        Ok(VectorAxes::Xyz)
    }
}

fn has_key(keys: &Vec<String>, key: &str) -> (b: bool)
    ensures
        b == text::string_views(keys@).contains(key@),
{
    let ghost v = text::string_views(keys@);
    let mut i: usize = 0;
    while i < keys.len()
        invariant
            i <= keys@.len(),
            v == text::string_views(keys@),
            forall|j: int| 0 <= j < i ==> v[j] != key@,
        decreases keys@.len() - i,
    {
        assert(v[i as int] == keys@[i as int]@);
        if text::same_text(keys[i].as_str(), key) {
            assert(v.contains(key@));
            return true;
        }
        i += 1;
    }
    false
}

impl VectorAxes {
    /// The axes that a vector's table, with these keys, uses.
    pub fn of_keys(keys: &Vec<String>) -> (r: Result<VectorAxes, String>)
        ensures
            match r {
                Ok(a) => vector_axes_of(text::string_views(keys@)) == Ok::<VectorAxes, Seq<char>>(
                    a,
                ),
                Err(e) => vector_axes_of(text::string_views(keys@)) == Err::<
                    VectorAxes,
                    Seq<char>,
                >(e@),
            },
    {
        let domain = has_key(keys, "depth") || has_key(keys, "right") || has_key(keys, "up");
        let xyz = has_key(keys, "x") || has_key(keys, "y") || has_key(keys, "z");
        if domain && xyz {
            Err("Vec3 must use either {depth,right,up} or {x,y,z}, not both".to_owned())
        } else if domain {
            Ok(VectorAxes::Domain)
        } else {
            Ok(VectorAxes::Xyz)
        }
    }

    /// The keys of the first, second and third component.
    pub fn keys(&self) -> (k: (&'static str, &'static str, &'static str))
        ensures
            *self == VectorAxes::Domain ==> k.0@ == "depth"@ && k.1@ == "right"@ && k.2@ == "up"@,
            *self == VectorAxes::Xyz ==> k.0@ == "x"@ && k.1@ == "y"@ && k.2@ == "z"@,
    {
        match self {
            VectorAxes::Domain => ("depth", "right", "up"),
            VectorAxes::Xyz => ("x", "y", "z"),
        }
    }
}

} // verus!
