use venom::fixed::FP_ONE;
use venom::objloader::ObjError;
use venom::venom_core::Scene;

const S: i64 = FP_ONE;

fn lines(text: &str) -> Vec<Vec<u8>> {
    text.lines().map(|l| l.as_bytes().to_vec()).collect()
}

#[test]
fn loads_a_small_description() {
    let scene = Scene::parse_obj(&lines(
        "v 1 2 3\n\
         v 1.5 -2.25 0\n\
         vn 0 0 1\n\
         vt 0.5 0.5\n\
         f 1/1/1 2/1/1 1/1/1\n\
         g",
    ))
    .unwrap();
    assert_eq!(scene.models.len(), 1);
    assert_eq!(scene.models[0].meshes.len(), 1);
    let mesh = &scene.models[0].meshes[0];
    assert_eq!(mesh.vertices.len(), 3);
    assert_eq!(mesh.vertices[0].position, (S, 2 * S, 3 * S));
    assert_eq!(mesh.vertices[1].position, (3 * S / 2, -9 * S / 4, 0));
    assert_eq!(mesh.vertices[2].position, (S, 2 * S, 3 * S));
    assert_eq!(mesh.vertices[0].normal, (0, 0, S));
    assert_eq!(mesh.vertices[0].uv, (S / 2, S / 2));
}

#[test]
fn named_models_split_on_o_records() {
    let scene = Scene::parse_obj(&lines(
        "o first\n\
         v 0 0 0\n\
         vn 0 0 1\n\
         vt 0 0\n\
         f 1/1/1\n\
         g\n\
         o second\n\
         f 1/1/1\n\
         g",
    ))
    .unwrap();
    assert_eq!(scene.models.len(), 2);
    assert_eq!(scene.models[0].name, b"first".to_vec());
    assert_eq!(scene.models[1].name, b"second".to_vec());
}

#[test]
fn numbers_accept_signs_fractions_and_bare_dots() {
    let scene = Scene::parse_obj(&lines(
        "v +2 -2 .5\n\
         v 5. 0.25 -0.5\n\
         vn 0 0 1\n\
         vt 0 0\n\
         f 1/1/1 2/1/1",
    ))
    .unwrap();
    let mesh = &scene.models[0].meshes[0];
    assert_eq!(mesh.vertices[0].position, (2 * S, -2 * S, S / 2));
    assert_eq!(mesh.vertices[1].position, (5 * S, S / 4, -S / 2));
}

#[test]
fn unknown_commands_and_blank_lines_are_ignored() {
    let scene = Scene::parse_obj(&lines(
        "# a comment\n\
         \n\
         usemtl stone\n\
         v 1 1 1",
    ))
    .unwrap();
    assert_eq!(scene.models.len(), 0); // no face ever formed a mesh
}

#[test]
fn short_records_abort_the_load() {
    assert_eq!(Scene::parse_obj(&lines("v 1 2")), Err(ObjError::MalformedCommand));
    assert_eq!(Scene::parse_obj(&lines("vt 1")), Err(ObjError::MalformedCommand));
    assert_eq!(Scene::parse_obj(&lines("o")), Err(ObjError::MalformedCommand));
    assert_eq!(
        Scene::parse_obj(&lines("v 0 0 0\nvn 0 0 1\nvt 0 0\nf 1/1")),
        Err(ObjError::MalformedCommand)
    );
}

#[test]
fn bad_numbers_abort_the_load() {
    assert_eq!(Scene::parse_obj(&lines("v a b c")), Err(ObjError::BadNumber));
    assert_eq!(Scene::parse_obj(&lines("v 1.2.3 0 0")), Err(ObjError::BadNumber));
    assert_eq!(Scene::parse_obj(&lines("v . 0 0")), Err(ObjError::BadNumber));
    // more fractional digits than the loader resolves
    assert_eq!(Scene::parse_obj(&lines("v 0.3333333333333 0 0")), Err(ObjError::BadNumber));
    // an integer part beyond the coordinate range
    assert_eq!(Scene::parse_obj(&lines("v 99999999 0 0")), Err(ObjError::BadNumber));
    // exponent notation is outside the loader's grammar
    assert_eq!(Scene::parse_obj(&lines("v 1e3 0 0")), Err(ObjError::BadNumber));
}

#[test]
fn bad_face_references_abort_the_load() {
    let head = "v 0 0 0\nvn 0 0 1\nvt 0 0\n";
    assert_eq!(
        Scene::parse_obj(&lines(&format!("{}f x/1/1", head))),
        Err(ObjError::BadFaceIndex)
    );
    assert_eq!(
        Scene::parse_obj(&lines(&format!("{}f 2/1/1", head))),
        Err(ObjError::FaceIndexOutOfRange)
    );
    assert_eq!(
        Scene::parse_obj(&lines(&format!("{}f 1/1/0", head))),
        Err(ObjError::FaceIndexOutOfRange)
    );
}

#[test]
fn empty_description_is_an_empty_scene() {
    let scene = Scene::parse_obj(&Vec::new()).unwrap();
    assert_eq!(scene.models.len(), 0);
}
