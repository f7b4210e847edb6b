use collada::document::{ColladaDocument, Malformed};
use collada::number::Number;
use collada::obj::{Normal, Shape, TVertex, VTNIndex, Vertex};
use collada::shapes::{make_polygons, make_triangles, read_corners, Offsets};
use collada::xml_tree::is_within_limits;

fn number(x: f64) -> Number {
    Number { single: (x as f32).to_bits(), double: x.to_bits() }
}

fn load(text: &str) -> ColladaDocument {
    assert!(is_within_limits(text));
    let mut document = ColladaDocument::from_contents(Ok(text.to_string())).unwrap();
    for word in document.get_words() {
        if let (Ok(single), Ok(double)) = (word.parse::<f32>(), word.parse::<f64>()) {
            document.define_numeral(
                word,
                Number { single: single.to_bits(), double: double.to_bits() },
            );
        }
    }
    document
}

fn corner(k: usize) -> VTNIndex {
    (k, Some(k + 10), None)
}

fn corners(count: usize) -> Vec<VTNIndex> {
    (0..count).map(corner).collect()
}

const MESH: &str = "<mesh>\
    <source id=\"xyz\"><float_array>0 1 2 3 4 5 6 7 8</float_array></source>\
    <source id=\"dir\"><float_array>0.5 0.5 0.1</float_array></source>\
    <source id=\"uv\"><float_array>0.25 0.75 1 0</float_array></source>\
    <vertices id=\"v\"><input semantic=\"POSITION\" source=\"#xyz\"/></vertices>\
    <triangles><input semantic=\"VERTEX\" source=\"#v\" offset=\"0\"/>\
    <input semantic=\"NORMAL\" source=\"#dir\" offset=\"1\"/>\
    <input semantic=\"TEXCOORD\" source=\"#uv\" offset=\"2\"/>\
    <p>0 0 1 1 0 0 2 0 1</p></triangles></mesh>";

fn geometry(id: &str, mesh: &str) -> String {
    format!("<geometry id=\"{id}\">{mesh}</geometry>")
}

fn collada(geometries: &str, rest: &str) -> ColladaDocument {
    load(&format!("<COLLADA><library_geometries>{geometries}</library_geometries>{rest}</COLLADA>"))
}

const NO_CONTROLLERS: &str = "<library_controllers/>";

#[test]
fn corners_are_read_in_chunks() {
    let indices = vec![0, 1, 2, 3, 4, 5];
    let offsets = Offsets { vertex: 2, texture: Some(0), normal: None };
    let found = read_corners(&indices, 3, offsets).unwrap();
    assert_eq!(found, vec![(2, Some(0), None), (5, Some(3), None)]);
    let all = Offsets { vertex: 0, texture: Some(1), normal: Some(2) };
    let found = read_corners(&indices, 3, all).unwrap();
    assert_eq!(found, vec![(0, Some(1), Some(2)), (3, Some(4), Some(5))]);
    assert!(read_corners(&vec![], 3, all).unwrap().is_empty());
}

#[test]
fn a_last_chunk_may_be_short_where_nothing_is_missing() {
    let offsets = Offsets { vertex: 0, texture: None, normal: None };
    let found = read_corners(&vec![4, 5, 6], 2, offsets).unwrap();
    assert_eq!(found, vec![(4, None, None), (6, None, None)]);
}

#[test]
fn corners_without_an_entry_are_malformed() {
    let indices = vec![4, 5, 6];
    let vertex = Offsets { vertex: 1, texture: None, normal: None };
    assert_eq!(read_corners(&indices, 2, vertex), Err(Malformed {}));
    let texture = Offsets { vertex: 0, texture: Some(1), normal: None };
    assert_eq!(read_corners(&indices, 2, texture), Err(Malformed {}));
    let normal = Offsets { vertex: 0, texture: None, normal: Some(2) };
    assert_eq!(read_corners(&indices, 2, normal), Err(Malformed {}));
}

#[test]
fn triangles_take_three_corners_each() {
    assert_eq!(
        make_triangles(&corners(7)),
        vec![
            Shape::Triangle(corner(0), corner(1), corner(2)),
            Shape::Triangle(corner(3), corner(4), corner(5)),
        ]
    );
    assert!(make_triangles(&corners(2)).is_empty());
}

#[test]
fn polygons_take_as_many_corners_as_they_count() {
    let found = make_polygons(&corners(11), &vec![1, 2, 4, 3, 0, 1]).unwrap();
    assert_eq!(
        found,
        vec![
            Shape::Point(corner(0)),
            Shape::Line(corner(1), corner(2)),
            Shape::Point((0, None, None)),
            Shape::Triangle(corner(7), corner(8), corner(9)),
            Shape::Point((0, None, None)),
            Shape::Point(corner(10)),
        ]
    );
}

#[test]
fn polygons_of_three_are_triangles() {
    let found = make_polygons(&corners(9), &vec![3, 3, 3]).unwrap();
    assert_eq!(found, make_triangles(&corners(9)));
}

#[test]
fn polygons_without_corners_are_malformed() {
    assert_eq!(make_polygons(&corners(2), &vec![3]), Err(Malformed {}));
    assert_eq!(make_polygons(&corners(1), &vec![2]), Err(Malformed {}));
    assert_eq!(make_polygons(&corners(0), &vec![1]), Err(Malformed {}));
    assert_eq!(make_polygons(&corners(5), &vec![9, 1]), Err(Malformed {}));
    let large = make_polygons(&corners(5), &vec![usize::MAX, usize::MAX]).unwrap();
    assert_eq!(large, vec![Shape::Point((0, None, None)), Shape::Point((0, None, None))]);
}

#[test]
fn shapes_are_of_two_types() {
    let document = load(
        "<poly><input semantic=\"VERTEX\" source=\"#v\" offset=\"0\"/>\
         <vcount>2 1</vcount><p>5 6 7</p></poly>",
    );
    let e = &document.root_element;
    let plain = |k: usize| (k, None, None);
    assert_eq!(
        document.get_shapes(e, "triangles").unwrap().unwrap(),
        vec![Shape::Triangle(plain(5), plain(6), plain(7))]
    );
    assert_eq!(
        document.get_shapes(e, "polylists").unwrap().unwrap(),
        vec![Shape::Line(plain(5), plain(6)), Shape::Point(plain(7))]
    );
    assert_eq!(document.get_shapes(e, "polylist"), Ok(None));
    assert_eq!(document.get_vtn_indices(e).unwrap().unwrap(), vec![plain(5), plain(6), plain(7)]);
}

#[test]
fn shapes_may_be_missing() {
    for text in [
        "<t><input semantic=\"VERTEX\" offset=\"0\"/></t>",
        "<t><input semantic=\"VERTEX\" offset=\"0\"/><p>1 x</p></t>",
        "<t><input semantic=\"VERTEX\"/><p>1 2</p></t>",
        "<t><p>1 2</p></t>",
    ] {
        let document = load(text);
        assert_eq!(document.get_shapes(&document.root_element, "triangles"), Ok(None));
    }
    let uncounted = load("<t><input semantic=\"VERTEX\" offset=\"0\"/><p>1</p></t>");
    assert_eq!(uncounted.get_shapes(&uncounted.root_element, "polylists"), Ok(None));
}

#[test]
fn a_mesh_has_the_coordinates_that_its_triangles_refer_to() {
    let document = collada(&geometry("g", MESH), NO_CONTROLLERS);
    let set = document.get_obj_set().unwrap();
    assert_eq!(set.material_library, None);
    assert_eq!(set.objects.len(), 1);
    let object = &set.objects[0];
    assert_eq!(object.name, "g");
    let vertices: Vec<Vertex> = [[0.0, 1.0, 2.0], [3.0, 4.0, 5.0], [6.0, 7.0, 8.0]]
        .iter()
        .map(|v| Vertex { x: number(v[0]), y: number(v[1]), z: number(v[2]) })
        .collect();
    assert_eq!(object.vertices, vertices);
    assert_eq!(object.normals, [Normal { x: number(0.5), y: number(0.5), z: object.normals[0].z }]);
    assert_eq!(object.normals[0].z.double, 0.1f64.to_bits());
    assert_eq!(object.normals[0].z.single, 0.1f32.to_bits());
    assert_eq!(
        object.tex_vertices,
        [TVertex { x: number(0.25), y: number(0.75) }, TVertex { x: number(1.0), y: number(0.0) }]
    );
    assert!(object.joint_weights.is_empty());
    assert_eq!(object.geometry.len(), 1);
    assert_eq!(object.geometry[0].material_name, None);
    assert_eq!(object.geometry[0].smooth_shading_group, 0);
    assert_eq!(
        object.geometry[0].shapes,
        [Shape::Triangle((0, Some(1), Some(0)), (1, Some(0), Some(0)), (2, Some(1), Some(0)))]
    );
}

#[test]
fn a_mesh_needs_no_normals_and_no_texture() {
    let bare = MESH
        .replace("<input semantic=\"NORMAL\" source=\"#dir\" offset=\"1\"/>", "")
        .replace("<input semantic=\"TEXCOORD\" source=\"#uv\" offset=\"2\"/>", "")
        .replace("<p>0 0 1 1 0 0 2 0 1</p>", "<p>2 1 0</p>");
    let set = collada(&geometry("g", &bare), NO_CONTROLLERS).get_obj_set().unwrap();
    let object = &set.objects[0];
    assert!(object.normals.is_empty());
    assert!(object.tex_vertices.is_empty());
    assert_eq!(
        object.geometry[0].shapes,
        [Shape::Triangle((2, None, None), (1, None, None), (0, None, None))]
    );
}

#[test]
fn the_meshes_of_all_geometries_are_one_set() {
    let twice = MESH.replace(
        "<triangles>",
        "<triangles><input semantic=\"VERTEX\" source=\"#v\" offset=\"0\"/><p>0 1 2</p></triangles><triangles>",
    );
    let all = format!(
        "{}{}<geometry/>{}",
        geometry("a", &twice),
        geometry("empty", "<mesh/>"),
        geometry("b", MESH)
    );
    let set = collada(&all, NO_CONTROLLERS).get_obj_set().unwrap();
    let names: Vec<&str> = set.objects.iter().map(|o| o.name.as_str()).collect();
    assert_eq!(names, ["a", "a", "b"]);
}

#[test]
fn without_controllers_there_are_no_meshes() {
    let set = collada(&geometry("g", MESH), "").get_obj_set().unwrap();
    assert!(set.objects.is_empty());
    assert!(load("<COLLADA/>").get_obj_set().is_none());
}

#[test]
fn meshes_that_lack_coordinates_are_left_out() {
    for (old, new) in [
        ("id=\"v\"", ""),
        ("id=\"dir\"", ""),
        ("id=\"uv\"", ""),
        ("0 1 2 3", "0 1 2 three"),
        ("<p>0 0 1 1 0 0 2 0 1</p>", ""),
    ] {
        assert!(MESH.contains(old));
        let mesh = MESH.replace(old, new);
        let set = collada(&geometry("g", &mesh), NO_CONTROLLERS).get_obj_set().unwrap();
        assert!(set.objects.is_empty());
    }
}

#[test]
fn broken_meshes_are_malformed() {
    for (old, new) in [
        ("6 7 8", "6 7"),
        ("0.5 0.5 0.1", "0.5 0.5"),
        ("0.25 0.75 1 0", "0.25 0.75 1"),
        ("offset=\"2\"", "offset=\"3\""),
        ("<p>0 0 1 1 0 0 2 0 1</p>", "<p>0 0 1 1 0 0 2 0</p>"),
        ("source=\"#xyz\"", "source=\"#v\""),
    ] {
        assert!(MESH.contains(old));
        let mesh = MESH.replace(old, new);
        let document = collada(&geometry("g", &mesh), NO_CONTROLLERS);
        assert!(matches!(document.read_obj_set(), Err(Malformed {})));
    }
}

/// A skin of the joints `A` and `B` for the mesh `g`, and a scene with their
/// skeleton.
fn skinned(names: &str, v: &str) -> String {
    let pose = vec!["1"; 16].join(" ");
    format!(
        "<library_controllers><controller name=\"S\"><skin source=\"#g\">\
         <source id=\"n\"><Name_array>{names}</Name_array></source>\
         <source id=\"w\"><float_array>0.5 0.25</float_array></source>\
         <source id=\"m\"><float_array>{pose}</float_array></source>\
         <joints><input semantic=\"JOINT\" source=\"#n\"/>\
         <input semantic=\"INV_BIND_MATRIX\" source=\"#m\"/></joints>\
         <vertex_weights><input semantic=\"JOINT\" source=\"#n\" offset=\"0\"/>\
         <input semantic=\"WEIGHT\" source=\"#w\" offset=\"1\"/>\
         <vcount>1 0 2</vcount><v>{v}</v></vertex_weights></skin></controller></library_controllers>\
         <library_visual_scenes><visual_scene><skeleton>#A</skeleton>\
         <node id=\"A\" type=\"JOINT\"><matrix>{pose}</matrix>\
         <node id=\"B\" type=\"JOINT\"><matrix>{pose}</matrix></node></node>\
         </visual_scene></library_visual_scenes>"
    )
}

#[test]
fn each_vertex_of_a_skinned_mesh_has_joint_weights() {
    let both = format!("{}{}", geometry("g", MESH), geometry("h", MESH));
    let set = collada(&both, &skinned("B A", "0 0 1 1 0 0")).get_obj_set().unwrap();
    let weights = &set.objects[0].joint_weights;
    assert_eq!(weights.len(), 3);
    assert_eq!(weights[0].joints, [1, 0, 0, 0]);
    assert_eq!(weights[0].weights[0], number(0.5));
    assert!(weights[1].weights.iter().all(|w| w.is_zero()));
    assert_eq!(weights[2].joints, [0, 1, 0, 0]);
    assert_eq!(weights[2].weights[..2], [number(0.25), number(0.5)]);
    assert!(set.objects[1].joint_weights.is_empty());
}

#[test]
fn influences_of_a_mesh_must_name_what_is_there() {
    for v in ["2 0 1 1 0 0", "0 2 1 1 0 0"] {
        let document = collada(&geometry("g", MESH), &skinned("B A", v));
        assert!(matches!(document.read_obj_set(), Err(Malformed {})));
    }
    let short = MESH.replace("0 1 2 3 4 5 6 7 8", "0 1 2 3 4 5");
    let document = collada(&geometry("g", &short), &skinned("B A", "0 0 1 1 0 0"));
    assert!(matches!(document.read_obj_set(), Err(Malformed {})));
}

#[test]
fn a_skeleton_that_is_named_but_not_found_is_malformed_for_a_mesh() {
    let rest = skinned("B A", "0 0 1 1 0 0").replace("<skeleton>#A", "<skeleton>#C");
    let document = collada(&geometry("g", MESH), &rest);
    assert!(document.get_skeletons().unwrap().is_empty());
    assert!(matches!(document.read_obj_set(), Err(Malformed {})));
}
