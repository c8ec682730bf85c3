use asset_inator::formats::obj::{parse_obj_scene, ObjMesh, ObjScene, Warning};
use asset_inator::{Format, Status};

fn coords(m: &asset_inator::formats::obj::Mesh) -> Vec<(f32, f32, f32)> {
    m.verts
        .iter()
        .map(|p| {
            (
                p.x.parse::<f32>().unwrap(),
                p.y.parse::<f32>().unwrap(),
                p.z.parse::<f32>().unwrap(),
            )
        })
        .collect()
}

#[test]
fn box_sample_yields_one_named_mesh() {
    let src = b"o box\nv 0 0 0\nv 1 0 0\nv 1 1 0\nf 1 2 3\n".to_vec();
    let (scene, warnings) = parse_obj_scene(&src).unwrap();
    assert_eq!(scene.nodes.len(), 1);
    let (mesh, name) = &scene.nodes[0];
    assert_eq!(name, "box");
    assert_eq!(coords(mesh), vec![(0.0, 0.0, 0.0), (1.0, 0.0, 0.0), (1.0, 1.0, 0.0)]);
    assert!(mesh.normals.is_empty());
    assert!(mesh.uvs.is_empty());
    // missing normals and uvs are warned about, not raised
    assert_eq!(
        warnings,
        vec![
            Warning::MissingNormals { verts: 3, normals: 0 },
            Warning::MissingUvs { verts: 3, uvs: 0 },
        ]
    );
}

#[test]
fn out_of_range_vertex_index_fails() {
    let src = b"v 0 0 0\nv 1 0 0\nv 1 1 0\nf 99 1 2\n".to_vec();
    let e = parse_obj_scene(&src).unwrap_err();
    assert_eq!(e.status, Status::OutOfRange);
    assert_eq!(e.message, "face vertex index 99 out of range, max value is 3");
}

#[test]
fn zero_vertex_index_is_out_of_range() {
    let src = b"v 0 0 0\nf 0 1 1\n".to_vec();
    let e = parse_obj_scene(&src).unwrap_err();
    assert_eq!(e.status, Status::OutOfRange);
}

#[test]
fn face_index_forms() {
    let src = b"v 0 0 0\nv 1 0 0\nv 1 1 0\nvt 0 0\nvn 0 0 1\nf 1/1/1 2/1/1 3//1\n".to_vec();
    let (scene, _) = parse_obj_scene(&src).unwrap();
    let (mesh, name) = &scene.nodes[0];
    assert_eq!(name, "<anonymous>");
    assert_eq!(mesh.verts.len(), 3);
    assert_eq!(mesh.normals.len(), 3);
    assert_eq!(mesh.uvs.len(), 2);
}

#[test]
fn malformed_face_index_is_invalid_argument() {
    let e = parse_obj_scene(&b"v 0 0 0\nf a 1 1\n".to_vec()).unwrap_err();
    assert_eq!(e.status, Status::InvalidArgument);
    assert_eq!(e.message, "parsing face index on line 2: 'a'");
    let e = parse_obj_scene(&b"v 0 0 0\nf /1 1 1\n".to_vec()).unwrap_err();
    assert_eq!(e.status, Status::InvalidArgument);
    assert_eq!(e.message, "missing geometry index on line 2: '/1'");
    let e = parse_obj_scene(&b"v 0 0 0\nf 1/2/3/4 1 1\n".to_vec()).unwrap_err();
    assert_eq!(e.status, Status::InvalidArgument);
    assert_eq!(e.message, "unrecognized face index format on line 2: '1/2/3/4'");
}

#[test]
fn malformed_coordinate_is_invalid_argument_with_context() {
    let e = parse_obj_scene(&b"v a b c\n".to_vec()).unwrap_err();
    assert_eq!(e.status, Status::InvalidArgument);
    assert_eq!(e.message, "parsing coordinate on line 1: 'a'");
    let e = parse_obj_scene(&b"v 0 0 0\nvt 1 x\n".to_vec()).unwrap_err();
    assert_eq!(e.status, Status::InvalidArgument);
    assert_eq!(e.message, "parsing coordinate on line 2: 'x'");
    let e = parse_obj_scene(&b"vn 0 0 1.2.3\n".to_vec()).unwrap_err();
    assert_eq!(e.status, Status::InvalidArgument);
    assert_eq!(e.message, "parsing coordinate on line 1: '1.2.3'");
}

#[test]
fn numeric_coordinate_forms_are_accepted() {
    let src = b"v -1.5 .5 2e3\nv 1. 2 3\nv +0.25E-2 1 1\nf 1 2 3\n".to_vec();
    let (scene, _) = parse_obj_scene(&src).unwrap();
    let mesh = &scene.nodes[0].0;
    assert_eq!(mesh.verts[0].x.parse::<f32>().unwrap(), -1.5);
    assert_eq!(mesh.verts[0].y.parse::<f32>().unwrap(), 0.5);
    assert_eq!(mesh.verts[0].z.parse::<f32>().unwrap(), 2000.0);
    assert_eq!(mesh.verts[1].x.parse::<f32>().unwrap(), 1.0);
    assert_eq!(mesh.verts[2].x.parse::<f32>().unwrap(), 0.0025);
}

#[test]
fn unknown_commands_warn_and_continue() {
    let src = b"# a comment\nusemtl shiny\nv 0 0 0\n".to_vec();
    let (scene, warnings) = parse_obj_scene(&src).unwrap();
    assert_eq!(scene.nodes.len(), 1);
    assert!(warnings.contains(&Warning::UnknownCommand { line: 2 }));
}

#[test]
fn two_objects_close_at_boundaries() {
    let src = b"o first\nv 0 0 0\nf 1 1 1\no second\nv 1 1 1\nf 1 1 1\n".to_vec();
    let (scene, _) = parse_obj_scene(&src).unwrap();
    assert_eq!(scene.nodes.len(), 2);
    assert_eq!(scene.nodes[0].1, "first");
    assert_eq!(scene.nodes[1].1, "second");
    assert_eq!(scene.nodes[0].0.verts.len(), 3);
    assert_eq!(coords(&scene.nodes[1].0), vec![(1.0, 1.0, 1.0); 3]);
}

#[test]
fn obj_mesh_format_yields_last_mesh() {
    let src = b"o box\nv 0 0 0\nv 1 0 0\nv 1 1 0\nf 1 2 3\n".to_vec();
    let mesh = ObjMesh.parse(&src).unwrap();
    assert_eq!(mesh.verts.len(), 3);
    let scene = ObjScene.parse(&src).unwrap();
    assert_eq!(scene.nodes.len(), 1);
}

#[test]
fn invalid_utf8_is_invalid_argument() {
    let e = parse_obj_scene(&vec![0xff, 0xfe]).unwrap_err();
    assert_eq!(e.status, Status::InvalidArgument);
}

#[test]
fn bad_index_count_warns() {
    let src = b"o a\nv 0 0 0\nf 1 1 1\nf 1 1 1\no b\n".to_vec();
    // six indices on object "a": fine; object "b" is empty and fine too.
    let (_, warnings) = parse_obj_scene(&src).unwrap();
    assert_eq!(
        warnings,
        vec![
            Warning::MissingNormals { verts: 1, normals: 0 },
            Warning::MissingUvs { verts: 1, uvs: 0 },
        ]
    );
}

#[test]
fn crlf_lines_are_handled() {
    let src = b"o box\r\nv 0 0 0\r\nv 1 0 0\r\nv 1 1 0\r\nf 1 2 3\r\n".to_vec();
    let (scene, _) = parse_obj_scene(&src).unwrap();
    assert_eq!(scene.nodes[0].1, "box");
    assert_eq!(scene.nodes[0].0.verts.len(), 3);
}
