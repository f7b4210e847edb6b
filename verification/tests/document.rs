use collada::document::ColladaDocument;
use collada::number::{Matrix4, Number};
use collada::obj::Shape;
use collada::skin::ROOT_JOINT_PARENT_INDEX;
use collada::xml_tree::is_within_limits;

const GEOMETRY_ID: &str = "BoxyWorm-mesh";

/// Numbers from `first` on, in steps of a quarter, separated by spaces and line
/// ends.
fn floats(count: usize, first: f32) -> String {
    let mut out = String::new();
    for i in 0..count {
        if i > 0 {
            out.push(if i % 10 == 0 { '\n' } else { ' ' });
        }
        out.push_str(&format!("{}", first + 0.25 * (i as f32)));
    }
    out
}

fn source(id: &str, count: usize, first: f32) -> String {
    format!(
        "<source id=\"{id}\"><float_array id=\"{id}-array\" count=\"{count}\">{}</float_array></source>",
        floats(count, first)
    )
}

fn animation(target: &str) -> String {
    format!(
        "<animation id=\"{target}_matrix\">{}{}\
         <sampler><input semantic=\"INPUT\" source=\"#{target}-input\"/>\
         <input semantic=\"OUTPUT\" source=\"#{target}-output\"/></sampler>\
         <channel source=\"#{target}-sampler\" target=\"{target}/transform\"/></animation>",
        source(&format!("{target}-input"), 4, 0.5),
        source(&format!("{target}-output"), 64, 1.0)
    )
}

/// The indices of 28 triangles: corner `c` of triangle `t` is the vertex
/// `(7 t + c) mod 16`, the normal `t` and the texture vertex `3 t + c`.
fn triangle_indices() -> String {
    let mut words: Vec<String> = Vec::new();
    for t in 0..28usize {
        for c in 0..3usize {
            words.push(format!("{} {} {}", (7 * t + c) % 16, t, 3 * t + c));
        }
    }
    words.join(" ")
}

fn geometries() -> String {
    format!(
        "<library_geometries><geometry id=\"{GEOMETRY_ID}\" name=\"BoxyWorm\"><mesh>{}{}{}\
         <vertices id=\"worm-vertices\"><input semantic=\"POSITION\" source=\"#worm-positions\"/></vertices>\
         <triangles count=\"28\"><input semantic=\"VERTEX\" source=\"#worm-vertices\" offset=\"0\"/>\
         <input semantic=\"NORMAL\" source=\"#worm-normals\" offset=\"1\"/>\
         <input semantic=\"TEXCOORD\" source=\"#worm-map\" offset=\"2\" set=\"0\"/>\
         <p>{}</p></triangles></mesh></geometry></library_geometries>",
        source("worm-positions", 48, -2.0),
        source("worm-normals", 84, 0.0),
        source("worm-map", 168, 0.0),
        triangle_indices()
    )
}

/// Sixteen vertices; the first thirteen have two influences, the others one.
fn controllers() -> String {
    let mut counts: Vec<String> = Vec::new();
    let mut indices: Vec<String> = Vec::new();
    let mut next: usize = 0;
    for vertex in 0..16usize {
        let count: usize = if vertex < 13 { 2 } else { 1 };
        counts.push(format!("{count}"));
        for _ in 0..count {
            indices.push(format!("{} {}", next % 3, next));
            next += 1;
        }
    }
    format!(
        "<library_controllers><controller id=\"worm-skin\" name=\"BoxWormRoot\">\
         <skin source=\"#{GEOMETRY_ID}\">\
         <source id=\"skin-joints\"><Name_array count=\"3\">Root UpperArm LowerArm</Name_array></source>{}{}\
         <joints><input semantic=\"JOINT\" source=\"#skin-joints\"/>\
         <input semantic=\"INV_BIND_MATRIX\" source=\"#skin-bind_poses\"/></joints>\
         <vertex_weights count=\"16\"><input semantic=\"JOINT\" source=\"#skin-joints\" offset=\"0\"/>\
         <input semantic=\"WEIGHT\" source=\"#skin-weights\" offset=\"1\"/>\
         <vcount>{}</vcount><v>{}</v></vertex_weights></skin></controller></library_controllers>",
        source("skin-bind_poses", 48, 2.0),
        source("skin-weights", 29, 0.5),
        counts.join(" "),
        indices.join(" ")
    )
}

fn joint(id: &str, inner: &str) -> String {
    format!(
        "<node id=\"{id}\" name=\"{id}\" type=\"JOINT\"><matrix sid=\"transform\">{}</matrix>{inner}</node>",
        floats(16, 3.0)
    )
}

fn scenes() -> String {
    let joints = joint(
        "Root",
        &format!(
            "{}{}",
            joint("UpperArm", &joint("UpperArmDanglyBit", "")),
            joint("LowerArm", "")
        ),
    );
    format!(
        "<library_visual_scenes><visual_scene id=\"Scene\">\
         <node id=\"BoxWormRoot\" type=\"NODE\">{joints}</node>\
         <node id=\"BoxyWorm\" type=\"NODE\"><instance_controller url=\"#worm-skin\">\
         <skeleton>#Root</skeleton></instance_controller></node>\
         </visual_scene></library_visual_scenes>"
    )
}

fn collada(inner: &str) -> String {
    format!(
        "<?xml version=\"1.0\" encoding=\"utf-8\"?>\n\
         <COLLADA xmlns=\"http://www.collada.org/2005/11/COLLADASchema\" version=\"1.4.1\">{inner}</COLLADA>\n"
    )
}

fn worm() -> String {
    collada(&format!(
        "<library_animations>{}{}{}{}</library_animations>{}{}{}",
        animation("Root"),
        animation("UpperArm"),
        animation("UpperArmDanglyBit"),
        animation("LowerArm"),
        geometries(),
        controllers(),
        scenes()
    ))
}

/// A document with all its numerals read.
fn load(text: &str) -> ColladaDocument {
    assert!(is_within_limits(text));
    let mut document = ColladaDocument::from_contents(Ok(text.to_string())).unwrap();
    for word in document.get_words() {
        if let (Ok(single), Ok(double)) = (word.parse::<f32>(), word.parse::<f64>()) {
            document.define_numeral(
                word,
                Number { single: single.to_bits(), double: double.to_bits() },
            );
        }
    }
    document
}

fn single(n: Number) -> f32 {
    f32::from_bits(n.single)
}

fn matrix(m: &Matrix4) -> vecmath::Matrix4<f32> {
    let mut out: vecmath::Matrix4<f32> = vecmath::mat4_id();
    for row in 0..4 {
        for column in 0..4 {
            out[row][column] = single(m[row][column]);
        }
    }
    out
}

#[test]
fn test_get_obj_set() {
    let collada_document = load(&worm());
    let obj_set = collada_document.get_obj_set().unwrap();
    assert_eq!(obj_set.objects.len(), 1);

    let object = &obj_set.objects[0];
    assert_eq!(object.name, "BoxyWorm-mesh");
    assert_eq!(object.vertices.len(), 16);
    assert_eq!(object.tex_vertices.len(), 84);
    assert_eq!(object.normals.len(), 28);
    assert_eq!(object.geometry.len(), 1);

    let geometry = &object.geometry[0];
    assert_eq!(geometry.shapes.len(), 28);

    let shape = &geometry.shapes[1];
    if let &Shape::Triangle((position_index, Some(texture_index), Some(normal_index)), _, _) = shape
    {
        assert_eq!(position_index, 7);
        assert_eq!(texture_index, 3);
        assert_eq!(normal_index, 1);
    } else {
        assert!(false);
    }
}

#[test]
fn test_get_bind_data_set() {
    let collada_document = load(&worm());
    let bind_data_set = collada_document.get_bind_data_set().unwrap();
    let bind_data = &bind_data_set.bind_data[0];

    assert_eq!(bind_data.object_name, "BoxyWorm-mesh");
    assert_eq!(bind_data.skeleton_name, "BoxWormRoot");
    assert_eq!(bind_data.joint_names, ["Root", "UpperArm", "LowerArm"]);
    assert_eq!(bind_data.vertex_weights.len(), 29);
    assert_eq!(bind_data.weights.len(), 29);
    assert_eq!(bind_data.inverse_bind_poses.len(), 3);
}

#[test]
fn test_get_skeletons() {
    let collada_document = load(&worm());
    let skeletons = collada_document.get_skeletons().unwrap();
    assert_eq!(skeletons.len(), 1);

    let skeleton = &skeletons[0];
    assert_eq!(skeleton.joints.len(), 4);
    assert_eq!(skeleton.bind_poses.len(), 4);

    assert_eq!(skeleton.joints[0].name, "Root");
    assert_eq!(skeleton.joints[0].parent_index, ROOT_JOINT_PARENT_INDEX);
    assert!(matrix(&skeleton.joints[0].inverse_bind_pose) != vecmath::mat4_id());

    assert_eq!(skeleton.joints[1].name, "UpperArm");
    assert_eq!(skeleton.joints[1].parent_index, 0);
    assert!(matrix(&skeleton.joints[1].inverse_bind_pose) != vecmath::mat4_id());

    assert_eq!(skeleton.joints[2].name, "UpperArmDanglyBit");
    assert_eq!(skeleton.joints[2].parent_index, 1);
    assert_eq!(matrix(&skeleton.joints[2].inverse_bind_pose), vecmath::mat4_id());

    assert_eq!(skeleton.joints[3].name, "LowerArm");
    assert_eq!(skeleton.joints[3].parent_index, 0);
    assert!(matrix(&skeleton.joints[3].inverse_bind_pose) != vecmath::mat4_id());
}

#[test]
fn test_get_animations() {
    let collada_document = load(&worm());
    let animations = collada_document.get_animations().unwrap();
    assert_eq!(animations.len(), 4);

    let animation = &animations[1];
    assert_eq!(animation.target, "UpperArm/transform");
    assert_eq!(animation.sample_times.len(), 4);
    assert_eq!(animation.sample_poses.len(), 4);

    let animation = &animations[3];
    assert_eq!(animation.target, "LowerArm/transform");
    assert_eq!(animation.sample_times.len(), 4);
    assert_eq!(animation.sample_poses.len(), 4);
}

#[test]
fn test_get_obj_set_noskeleton() {
    let collada_document = load(&collada(&geometries()));
    collada_document.get_obj_set().unwrap();
}
