use raytracer::scene::{
    build_error, check_lights, dimension_or_default, frame_from, LightAttribute, LightKind,
    ObjectAttribute, ObjectKind, VectorAxes,
};

#[test]
fn light_kinds() {
    assert_eq!(LightKind::from_name("omni"), Ok(LightKind::Omni));
    assert_eq!(LightKind::from_name("ambiant"), Ok(LightKind::Ambiant));
    assert_eq!(LightKind::from_name("directional"), Ok(LightKind::Directional));
    assert_eq!(LightKind::from_name("spot"), Err("Unknown light type: spot".to_string()));
}

#[test]
fn light_attributes() {
    assert_eq!(LightAttribute::from_key("color"), Ok(LightAttribute::Color));
    assert_eq!(LightAttribute::from_key("position"), Ok(LightAttribute::Position));
    assert_eq!(LightAttribute::from_key("intensity"), Ok(LightAttribute::Intensity));
    for key in ["normal", "orientation", "direction"] {
        assert_eq!(LightAttribute::from_key(key), Ok(LightAttribute::Orientation));
    }
    assert_eq!(
        LightAttribute::from_key("radius"),
        Err("Unknown light attribute: radius".to_string())
    );
}

#[test]
fn object_kinds() {
    let names = [
        ("sphere", ObjectKind::Sphere),
        ("cylinder", ObjectKind::Cylinder),
        ("cone", ObjectKind::Cone),
        ("plane", ObjectKind::Plane),
        ("menger", ObjectKind::Menger),
        ("triangle", ObjectKind::Triangle),
        ("cuboid", ObjectKind::Cuboid),
        ("obj_file", ObjectKind::ObjFile),
    ];
    for (name, kind) in names {
        assert_eq!(ObjectKind::from_name(name), Ok(kind));
    }
    assert_eq!(ObjectKind::from_name("torus"), Err("Unknown object type: torus".to_string()));
}

#[test]
fn object_attribute_aliases() {
    let keys = [
        ("color", ObjectAttribute::Color),
        ("position", ObjectAttribute::Position),
        ("radius", ObjectAttribute::Radius),
        ("size", ObjectAttribute::Radius),
        ("angle", ObjectAttribute::Angle),
        ("apex", ObjectAttribute::Apex),
        ("limited", ObjectAttribute::Limited),
        ("reflectiveness", ObjectAttribute::Reflectiveness),
        ("reflectivity", ObjectAttribute::Reflectiveness),
        ("reflective", ObjectAttribute::Reflectiveness),
        ("transparency", ObjectAttribute::Transparency),
        ("ior", ObjectAttribute::RefractiveIndex),
        ("refractive_index", ObjectAttribute::RefractiveIndex),
        ("index_of_refraction", ObjectAttribute::RefractiveIndex),
        ("level", ObjectAttribute::Level),
        ("normal", ObjectAttribute::Orientation),
        ("orientation", ObjectAttribute::Orientation),
        ("direction", ObjectAttribute::Orientation),
        ("v0", ObjectAttribute::V0),
        ("vertex0", ObjectAttribute::V0),
        ("v1", ObjectAttribute::V1),
        ("vertex1", ObjectAttribute::V1),
        ("v2", ObjectAttribute::V2),
        ("vertex2", ObjectAttribute::V2),
        ("dimensions", ObjectAttribute::Dimensions),
        ("dimension", ObjectAttribute::Dimensions),
        ("path", ObjectAttribute::Path),
    ];
    for (key, attr) in keys {
        assert_eq!(ObjectAttribute::from_key(key), Ok(attr), "{key}");
    }
    assert_eq!(
        ObjectAttribute::from_key("mass"),
        Err("Unknown object attribute: mass".to_string())
    );
}

#[test]
fn build_error_text() {
    assert_eq!(
        build_error("object", "torus", "Unknown object type: torus"),
        "Error building object of type 'torus': Unknown object type: torus"
    );
}

#[test]
fn at_most_one_ambient_light() {
    assert_eq!(check_lights(&vec![]), Ok(()));
    assert_eq!(check_lights(&vec![LightKind::Ambiant, LightKind::Omni]), Ok(()));
    assert_eq!(
        check_lights(&vec![LightKind::Ambiant, LightKind::Omni, LightKind::Ambiant]),
        Err("Only one ambient light is allowed.".to_string())
    );
}

#[test]
fn dimensions_default() {
    assert_eq!(dimension_or_default(Some(1024), 800), 1024);
    assert_eq!(dimension_or_default(Some(0), 800), 0);
    assert_eq!(dimension_or_default(Some(-5), 800), 800);
    assert_eq!(dimension_or_default(None, 600), 600);
}

#[test]
fn frame_needs_camera() {
    assert_eq!(frame_from(true, Some(320), None), Ok((320, 600)));
    assert_eq!(frame_from(true, None, None), Ok((800, 600)));
    assert_eq!(
        frame_from(false, Some(320), Some(200)),
        Err("Missing required [camera] section".to_string())
    );
}

#[test]
fn vector_axes_choice() {
    let keys = |ks: &[&str]| ks.iter().map(|k| k.to_string()).collect::<Vec<String>>();
    assert_eq!(VectorAxes::of_keys(&keys(&["x", "y", "z"])), Ok(VectorAxes::Xyz));
    assert_eq!(VectorAxes::of_keys(&keys(&["depth", "up"])), Ok(VectorAxes::Domain));
    assert_eq!(VectorAxes::of_keys(&keys(&[])), Ok(VectorAxes::Xyz));
    assert_eq!(
        VectorAxes::of_keys(&keys(&["x", "up"])),
        Err("Vec3 must use either {depth,right,up} or {x,y,z}, not both".to_string())
    );
    assert_eq!(VectorAxes::Domain.keys(), ("depth", "right", "up"));
    assert_eq!(VectorAxes::Xyz.keys(), ("x", "y", "z"));
}

fn settings(text: &str) -> config::Config {
    config::Config::builder()
        .add_source(config::File::from_str(text, config::FileFormat::Toml))
        .build()
        .unwrap()
}

#[test]
fn scene_frame_reads_render_size() {
    let s = settings("[camera]\nfov = 60.0\n[render]\nwidth = 320\nheight = 200\n");
    assert_eq!(raytracer::scene::scene_frame(&s), Ok((320, 200)));
}

#[test]
fn scene_frame_defaults_and_negative_sizes() {
    let s = settings("[camera]\nfov = 60.0\n[render]\nwidth = -4\n");
    assert_eq!(raytracer::scene::scene_frame(&s), Ok((800, 600)));
}

#[test]
fn scene_frame_needs_camera() {
    let s = settings("[render]\nwidth = 320\n");
    assert_eq!(
        raytracer::scene::scene_frame(&s),
        Err("Missing required [camera] section".to_string())
    );
}
