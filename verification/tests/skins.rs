use collada::binding::read_influences;
use collada::document::{ColladaDocument, Malformed};
use collada::mesh::assign_joint_weights;
use collada::number::{mat4_id, Matrix4, Number};
use collada::obj::JointWeights;
use collada::skin::{BindData, Joint, VertexWeight, ROOT_JOINT_PARENT_INDEX};
use collada::xml_tree::is_within_limits;

fn number(x: f64) -> Number {
    Number { single: (x as f32).to_bits(), double: x.to_bits() }
}

fn load(text: &str) -> ColladaDocument {
    assert!(is_within_limits(text));
    let mut document = ColladaDocument::from_contents(Ok(text.to_string())).unwrap();
    for word in document.get_words() {
        if let (Ok(single), Ok(double)) = (word.parse::<f32>(), word.parse::<f64>()) {
            document.define_numeral(
                word,
                Number { single: single.to_bits(), double: double.to_bits() },
            );
        }
    }
    document
}

fn weight(vertex: usize, joint: u8, weight: usize) -> VertexWeight {
    VertexWeight { vertex, joint, weight }
}

fn joint(name: &str) -> Joint {
    Joint { name: name.to_string(), parent_index: ROOT_JOINT_PARENT_INDEX, inverse_bind_pose: mat4_id() }
}

fn data(names: &[&str], weights: &[f64], vertex_weights: Vec<VertexWeight>) -> BindData {
    BindData {
        object_name: "mesh".to_string(),
        skeleton_name: "skeleton".to_string(),
        joint_names: names.iter().map(|s| s.to_string()).collect(),
        inverse_bind_poses: vec![],
        weights: weights.iter().map(|&w| number(w)).collect(),
        vertex_weights,
    }
}

fn slots(joints: [usize; 4], weights: [f64; 4]) -> JointWeights {
    JointWeights { joints, weights: weights.map(number) }
}

/// Sixteen times the same number.
fn pose(n: &str) -> String {
    vec![n; 16].join(" ")
}

/// A skin whose joints are `A B`, with weights, poses and the inside of its
/// `vertex_weights` as given.
fn skin(weights: &str, poses: &str, inner: &str) -> String {
    format!(
        "<skin source=\"##mesh\">\
         <source id=\"n\"><Name_array>A B</Name_array></source>\
         <source id=\"w\"><float_array>{weights}</float_array></source>\
         <source id=\"m\"><float_array>{poses}</float_array></source>\
         <joints><input semantic=\"JOINT\" source=\"#n\"/>\
         <input semantic=\"INV_BIND_MATRIX\" source=\"#m\"/></joints>\
         <vertex_weights>{inner}</vertex_weights></skin>"
    )
}

const INPUTS: &str = "<input semantic=\"JOINT\" source=\"#n\" offset=\"0\"/>\
                      <input semantic=\"WEIGHT\" source=\"#w\" offset=\"1\"/>";

fn controller(skin: &str) -> String {
    format!("<library_controllers><controller name=\"S\">{skin}</controller></library_controllers>")
}

fn good_controller() -> String {
    let inner = format!("{INPUTS}<vcount>1 2</vcount><v>0 0 1 1 0 2</v>");
    controller(&skin("0.5 0.25 0.125", &format!("{} {}", pose("2"), pose("3")), &inner))
}

fn collada(inner: &str) -> ColladaDocument {
    load(&format!("<COLLADA>{inner}</COLLADA>"))
}

fn scene(inner: &str) -> String {
    format!("<library_visual_scenes><visual_scene>{inner}</visual_scene></library_visual_scenes>")
}

fn node(id: &str, inner: &str) -> String {
    format!("<node id=\"{id}\" type=\"JOINT\"><matrix>{}</matrix>{inner}</node>", pose("7"))
}

fn row_sum(m: &Matrix4) -> f32 {
    m.iter().flat_map(|row| row.iter()).map(|n| f32::from_bits(n.single)).sum()
}

#[test]
fn influences_go_vertex_by_vertex() {
    let list = read_influences(&vec![2, 0, 1], &vec![5, 9, 6, 8, 7, 7], 2, 0, 1).unwrap();
    assert_eq!(list, vec![weight(0, 5, 9), weight(0, 6, 8), weight(2, 7, 7)]);
}

#[test]
fn influences_end_with_the_shorter_list() {
    let few_chunks = read_influences(&vec![2, 2], &vec![1, 2, 3, 4], 2, 0, 1).unwrap();
    assert_eq!(few_chunks, vec![weight(0, 1, 2), weight(0, 3, 4)]);
    let few_vertices = read_influences(&vec![1], &vec![1, 2, 3, 4], 2, 0, 1).unwrap();
    assert_eq!(few_vertices, vec![weight(0, 1, 2)]);
    assert!(read_influences(&vec![3], &vec![], 2, 0, 1).unwrap().is_empty());
    assert!(read_influences(&vec![], &vec![1, 2], 2, 0, 1).unwrap().is_empty());
}

#[test]
fn joints_of_influences_are_cut_down_to_an_index() {
    let list = read_influences(&vec![1], &vec![300, 1], 2, 0, 1).unwrap();
    assert_eq!(list, vec![weight(0, 44, 1)]);
}

#[test]
fn influences_without_an_entry_are_malformed() {
    assert_eq!(read_influences(&vec![1], &vec![1, 2], 2, 0, 2), Err(Malformed {}));
    assert_eq!(read_influences(&vec![2], &vec![1, 2, 3], 2, 0, 1), Err(Malformed {}));
    let cut_off_but_unused = read_influences(&vec![1], &vec![1, 2, 3], 2, 0, 1).unwrap();
    assert_eq!(cut_off_but_unused, vec![weight(0, 1, 2)]);
}

#[test]
fn slots_hold_the_first_four_influences() {
    let list: Vec<VertexWeight> = (0..5).map(|k| weight(0, 0, k)).collect();
    let held = data(&["A"], &[0.5, 0.25, 0.125, 0.0625, 9.0], list);
    let found = assign_joint_weights(2, &held, &vec![joint("Z"), joint("A")]).unwrap();
    assert_eq!(
        found,
        vec![slots([1, 1, 1, 1], [0.5, 0.25, 0.125, 0.0625]), slots([0; 4], [0.0; 4])]
    );
}

#[test]
fn a_slot_of_weight_zero_is_taken_again() {
    let held = data(&["A", "B"], &[0.0, 0.5], vec![weight(0, 1, 0), weight(0, 0, 1), weight(0, 1, 0)]);
    let found = assign_joint_weights(1, &held, &vec![joint("A"), joint("B")]).unwrap();
    assert_eq!(found, vec![slots([0, 1, 0, 0], [0.5, 0.0, 0.0, 0.0])]);
}

#[test]
fn influences_of_unknown_joints_are_dropped() {
    let held = data(&["A", "B"], &[0.5], vec![weight(0, 1, 7), weight(0, 0, 0)]);
    let found = assign_joint_weights(1, &held, &vec![joint("A")]).unwrap();
    assert_eq!(found, vec![slots([0; 4], [0.5, 0.0, 0.0, 0.0])]);
}

#[test]
fn weighted_slots_name_joints_of_the_skeleton() {
    let held = data(&["B", "A", "X"], &[1.0, 2.0, 3.0], vec![weight(0, 0, 0), weight(0, 2, 1), weight(0, 1, 2)]);
    let joints = vec![joint("A"), joint("B"), joint("A")];
    let found = assign_joint_weights(1, &held, &joints).unwrap();
    assert_eq!(found, vec![slots([1, 0, 0, 0], [1.0, 3.0, 0.0, 0.0])]);
}

#[test]
fn influences_of_nothing_are_malformed() {
    let joints = vec![joint("A")];
    let no_joint = data(&["A"], &[1.0], vec![weight(0, 1, 0)]);
    assert_eq!(assign_joint_weights(1, &no_joint, &joints), Err(Malformed {}));
    let no_vertex = data(&["A"], &[1.0], vec![weight(1, 0, 0)]);
    assert_eq!(assign_joint_weights(1, &no_vertex, &joints), Err(Malformed {}));
    let no_weight = data(&["A"], &[1.0], vec![weight(0, 0, 1)]);
    assert_eq!(assign_joint_weights(1, &no_weight, &joints), Err(Malformed {}));
}

#[test]
fn bind_data_is_read_from_a_controller() {
    let document = collada(&good_controller());
    let set = document.get_bind_data_set().unwrap();
    assert_eq!(set.bind_data.len(), 1);
    let found = &set.bind_data[0];
    assert_eq!(found.object_name, "mesh");
    assert_eq!(found.skeleton_name, "S");
    assert_eq!(found.joint_names, ["A", "B"]);
    assert_eq!(found.weights, [number(0.5), number(0.25), number(0.125)]);
    assert_eq!(found.vertex_weights, [weight(0, 0, 0), weight(1, 1, 1), weight(1, 0, 2)]);
    assert_eq!(row_sum(&found.inverse_bind_poses[0]), 32.0);
    assert_eq!(row_sum(&found.inverse_bind_poses[1]), 48.0);
}

#[test]
fn controllers_that_describe_nothing_are_left_out() {
    let good = good_controller();
    let both = good.replace("<library_controllers>", "<library_controllers><controller name=\"T\"/>");
    let set = collada(&both).get_bind_data_set().unwrap();
    assert_eq!(set.bind_data.len(), 1);
    assert_eq!(set.bind_data[0].skeleton_name, "S");
    for (old, new) in [
        ("name=\"S\"", ""),
        (" source=\"##mesh\"", ""),
        ("<vcount>1 2</vcount>", ""),
        ("<vcount>1 2</vcount>", "<vcount>1 x</vcount>"),
        ("<v>0 0 1 1 0 2</v>", "<v/>"),
        (" offset=\"0\"", ""),
        (" offset=\"1\"", " offset=\"-1\""),
        ("0.5 0.25", "0.5 heavy"),
        ("id=\"w\"", ""),
        ("semantic=\"INV_BIND_MATRIX\"", ""),
    ] {
        assert!(good.contains(old));
        let set = collada(&good.replace(old, new)).get_bind_data_set().unwrap();
        assert!(set.bind_data.is_empty());
    }
    assert!(collada("").get_bind_data_set().is_none());
}

#[test]
fn broken_controllers_are_malformed() {
    let good = good_controller();
    for (old, new) in [
        ("offset=\"1\"", "offset=\"2\""),
        ("<v>0 0 1 1 0 2</v>", "<v>0 0 1 1 0</v>"),
        ("2 2 2", "2 2"),
        (
            "<source id=\"w\"><float_array>0.5 0.25 0.125</float_array></source>",
            "<loop id=\"w\"><input source=\"#w\"/></loop>",
        ),
    ] {
        assert!(good.contains(old));
        let document = collada(&good.replacen(old, new, 1));
        assert!(matches!(document.read_bind_data_set(), Err(Malformed {})));
    }
}

#[test]
fn sources_are_followed_through_other_inputs() {
    let good = good_controller();
    let longer = good.replace("id=\"w\"", "id=\"w3\"").replace(
        "<joints>",
        "<via id=\"w\"><input source=\"#w2\"/></via><via id=\"w2\"><input source=\"#w3\"/></via><joints>",
    );
    let set = collada(&longer).get_bind_data_set().unwrap();
    assert_eq!(set.bind_data[0].weights.len(), 3);
}

#[test]
fn circles_of_sources_are_malformed() {
    let document = load(
        "<m><in source=\"#a\"/><v id=\"a\"><input source=\"#b\"/></v>\
         <v id=\"b\"><input source=\"#a\"/></v></m>",
    );
    let m = &document.root_element;
    let input = m.get_child("in", None).unwrap();
    assert!(matches!(document.get_input_source(m, input), Err(Malformed {})));
}

#[test]
fn a_source_may_be_missing() {
    let document = load(
        "<m><in source=\"#a\"/><other/><dead source=\"#c\"/><v id=\"a\"/><source id=\"b\"/></m>",
    );
    let m = &document.root_element;
    for name in ["in", "other", "dead"] {
        let input = m.get_child(name, None).unwrap();
        assert!(matches!(document.get_input_source(m, input), Ok(None)));
    }
}

#[test]
fn a_skeleton_follows_its_elements() {
    let joints = node("A", &format!("{}<extra/>{}", node("C", ""), node("B", &node("D", ""))));
    let inner = format!("{joints}<node id=\"user\"><skeleton>#A</skeleton></node>");
    let document = collada(&format!("{}{}", good_controller(), scene(&inner)));
    let skeletons = document.get_skeletons().unwrap();
    assert_eq!(skeletons.len(), 1);
    let found = &skeletons[0];
    let names: Vec<&str> = found.joints.iter().map(|j| j.name.as_str()).collect();
    assert_eq!(names, ["A", "C", "B", "D"]);
    let parents: Vec<u8> = found.joints.iter().map(|j| j.parent_index).collect();
    assert_eq!(parents, [ROOT_JOINT_PARENT_INDEX, 0, 0, 2]);
    assert_eq!(row_sum(&found.joints[0].inverse_bind_pose), 32.0);
    assert_eq!(row_sum(&found.joints[2].inverse_bind_pose), 48.0);
    assert_eq!(found.joints[1].inverse_bind_pose, mat4_id());
    assert!(found.bind_poses.iter().all(|p| row_sum(p) == 112.0));
    assert_eq!(found.bind_poses.len(), 4);
}

#[test]
fn the_root_may_lie_deeper_in_the_scene() {
    let inner = format!(
        "<node id=\"top\"><node id=\"mid\">{}</node></node><skeleton>##A</skeleton>",
        node("A", &node("B", ""))
    );
    let document = collada(&format!("{}{}", good_controller(), scene(&inner)));
    let skeletons = document.get_skeletons().unwrap();
    let parents: Vec<u8> = skeletons[0].joints.iter().map(|j| j.parent_index).collect();
    assert_eq!(parents, [ROOT_JOINT_PARENT_INDEX, 0]);
}

#[test]
fn joints_side_by_side_in_a_node_that_is_no_joint_count_as_nested() {
    let between = format!("<node id=\"gap\">{}{}</node>", node("B", ""), node("C", ""));
    let inner = format!("{}<skeleton>#A</skeleton>", node("A", &format!("{between}{}", node("D", ""))));
    let document = collada(&format!("{}{}", good_controller(), scene(&inner)));
    let skeletons = document.get_skeletons().unwrap();
    let names: Vec<&str> = skeletons[0].joints.iter().map(|j| j.name.as_str()).collect();
    assert_eq!(names, ["A", "B", "C", "D"]);
    let parents: Vec<u8> = skeletons[0].joints.iter().map(|j| j.parent_index).collect();
    assert_eq!(parents, [ROOT_JOINT_PARENT_INDEX, 0, 1, 0]);
}

#[test]
fn parents_beyond_the_range_of_joint_indices_are_cut_down() {
    let mut chain = String::new();
    for k in (0..260).rev() {
        chain = node(&format!("J{k}"), &chain);
    }
    let inner = format!("{chain}<skeleton>#J0</skeleton>");
    let document = collada(&format!("{}{}", good_controller(), scene(&inner)));
    let skeletons = document.get_skeletons().unwrap();
    let joints = &skeletons[0].joints;
    assert_eq!(joints.len(), 260);
    assert_eq!(joints[0].parent_index, ROOT_JOINT_PARENT_INDEX);
    for k in 1..260usize {
        assert_eq!(joints[k].parent_index, ((k - 1) % 256) as u8);
    }
}

#[test]
fn the_first_skeleton_element_with_text_names_the_root() {
    let inner = format!(
        "<skeleton><!--none--></skeleton><skeleton>#B</skeleton><skeleton>#A</skeleton>{}",
        node("A", &node("B", ""))
    );
    let document = collada(&format!("{}{}", good_controller(), scene(&inner)));
    let skeletons = document.get_skeletons().unwrap();
    assert_eq!(skeletons[0].joints.len(), 1);
    assert_eq!(skeletons[0].joints[0].name, "B");
}

#[test]
fn the_texts_of_later_skeleton_elements_change_nothing() {
    let with_later = |later: &str| {
        let inner = format!(
            "<skeleton><!--none--></skeleton><skeleton>#A</skeleton>{}{later}",
            node("A", &node("B", ""))
        );
        collada(&format!("{}{}", good_controller(), scene(&inner)))
    };
    let described = |document: &ColladaDocument| -> Vec<(String, u8, Matrix4, Matrix4)> {
        let skeletons = document.get_skeletons().unwrap();
        assert_eq!(skeletons.len(), 1);
        let joints = skeletons[0].joints.iter().zip(skeletons[0].bind_poses.iter());
        joints.map(|(j, &p)| (j.name.clone(), j.parent_index, j.inverse_bind_pose, p)).collect()
    };
    let first = described(&with_later("<skeleton>#A</skeleton>"));
    assert_eq!(first.len(), 2);
    for later in [
        "<skeleton>#B</skeleton>",
        "<skeleton>#nowhere</skeleton>",
        "<skeleton>7</skeleton>",
        "<skeleton><!--none--></skeleton>",
        "<skeleton>#B<!--none-->more</skeleton><skeleton> </skeleton>",
    ] {
        assert_eq!(described(&with_later(later)), first);
    }
    assert!(matches!(with_later("<skeleton></skeleton>").read_skeletons(), Err(Malformed {})));
}

#[test]
fn only_the_first_joint_bears_the_mark_of_the_root() {
    let mut children = String::new();
    for k in 1..256 {
        children.push_str(&node(&format!("J{k}"), ""));
    }
    let inner = format!("{}<skeleton>#J0</skeleton>", node("J0", &children));
    let document = collada(&format!("{}{}", good_controller(), scene(&inner)));
    let skeletons = document.get_skeletons().unwrap();
    let joints = &skeletons[0].joints;
    assert_eq!(joints.len(), 256);
    assert_eq!(joints[0].parent_index, ROOT_JOINT_PARENT_INDEX);
    assert!(joints[1..].iter().all(|j| j.parent_index == 0));
}

#[test]
fn skeletons_may_be_missing() {
    let named = format!("<skeleton>#A</skeleton>{}", node("A", ""));
    assert!(collada(&scene(&named)).get_skeletons().is_none());
    assert!(collada(&good_controller()).get_skeletons().is_none());
    let no_scene = format!("{}<library_visual_scenes/>", good_controller());
    assert!(collada(&no_scene).get_skeletons().is_none());
    let unnamed = format!("{}{}", good_controller(), scene(&node("A", "")));
    assert!(collada(&unnamed).get_skeletons().is_none());
    let unposed = format!(
        "{}{}",
        good_controller(),
        scene("<skeleton>#A</skeleton><node id=\"A\" type=\"JOINT\"/>")
    );
    assert!(collada(&unposed).get_skeletons().unwrap().is_empty());
}

#[test]
fn broken_skeletons_are_malformed() {
    let good = good_controller();
    let empty = format!("{good}{}", scene("<skeleton/>"));
    assert!(matches!(collada(&empty).read_skeletons(), Err(Malformed {})));
    let no_id = node("B", "").replace(" id=\"B\"", "");
    let nameless = format!("{good}{}", scene(&format!("<skeleton>#A</skeleton>{}", node("A", &no_id))));
    assert!(matches!(collada(&nameless).read_skeletons(), Err(Malformed {})));
    let unbound = format!(
        "<library_controllers/>{}",
        scene(&format!("<skeleton>#A</skeleton>{}", node("A", "")))
    );
    assert!(matches!(collada(&unbound).read_skeletons(), Err(Malformed {})));
}

#[test]
fn animations_follow_their_elements() {
    let one = format!(
        "<animation><source id=\"t\"><float_array>0 1.5</float_array></source>\
         <source id=\"p\"><float_array>{} {}</float_array></source>\
         <sampler><input semantic=\"INPUT\" source=\"#t\"/><input semantic=\"OUTPUT\" source=\"#p\"/></sampler>\
         <channel target=\"x/transform\"/></animation>",
        pose("1"),
        pose("2")
    );
    let other = one.replace("x/transform", "y/transform");
    let library = format!("<library_animations>{one}<animation/>{other}</library_animations>");
    let found = collada(&library).get_animations().unwrap();
    assert_eq!(found.len(), 2);
    assert_eq!(found[0].target, "x/transform");
    assert_eq!(found[1].target, "y/transform");
    assert_eq!(found[0].sample_times, [number(0.0), number(1.5)]);
    assert_eq!(row_sum(&found[0].sample_poses[0]), 16.0);
    assert_eq!(row_sum(&found[0].sample_poses[1]), 32.0);
    for (old, new) in [
        (" target=\"x/transform\"", ""),
        ("semantic=\"INPUT\"", ""),
        ("semantic=\"OUTPUT\"", ""),
        ("0 1.5", "0 soon"),
        ("id=\"p\"", ""),
    ] {
        assert!(library.contains(old));
        let fewer = collada(&library.replacen(old, new, 1)).get_animations().unwrap();
        assert_eq!(fewer.len(), 1);
    }
    assert!(collada("").get_animations().is_none());
    assert!(collada("<library_animations/>").get_animations().unwrap().is_empty());
    let broken = collada(&library.replacen("1 1 1", "1 1", 1));
    assert!(matches!(broken.read_animations(), Err(Malformed {})));
}
