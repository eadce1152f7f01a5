use raytracer::menger::{menger_cells, traced_level};
use raytracer::obj::{obj_lines, read_obj, CornerColor, Face, ObjRead};

fn read(content: &str) -> ObjRead {
    let lines = obj_lines(content);
    let numeric: Vec<Vec<bool>> = lines
        .iter()
        .map(|l| l.iter().map(|w| w.parse::<f64>().is_ok()).collect())
        .collect();
    read_obj(&lines, &numeric)
}

#[test]
fn menger_keeps_twenty_cells() {
    let cells = menger_cells();
    assert_eq!(cells.len(), 20);
    for (i, j, k) in &cells {
        let middles = [*i, *j, *k].iter().filter(|&&x| x == 1).count();
        assert!(middles < 2);
    }
    assert_eq!(cells[0], (0, 0, 0));
    assert_eq!(cells[1], (0, 0, 1));
    assert_eq!(cells[19], (2, 2, 2));
}

#[test]
fn menger_level_is_capped() {
    assert_eq!(traced_level(3), 3);
    assert_eq!(traced_level(5), 5);
    assert_eq!(traced_level(9), 5);
}

#[test]
fn obj_lines_words() {
    let lines = obj_lines("v 1 2 3\n\n  f 1 2 3 \r\n");
    assert_eq!(lines, vec![vec!["v", "1", "2", "3"], vec![], vec!["f", "1", "2", "3"], vec![]]);
}

#[test]
fn obj_reads_vertices_and_faces() {
    let content = "# a mesh\nv 0 0 0\nv 1 0 0 0.5 0.5 0.5\nv 0 1 0\nf 1 2 3\nf 3 2 1\n";
    match read(content) {
        ObjRead::Model(m) => {
            assert_eq!(m.vertices.len(), 3);
            assert_eq!(m.vertices[1].first, "1");
            assert_eq!(m.colors.len(), 3);
            assert!(matches!(m.colors[0], CornerColor::White));
            assert!(matches!(&m.colors[1], CornerColor::Given(t) if t.first == "0.5"));
            assert_eq!(m.faces, vec![
                Face { first: 0, second: 1, third: 2, colored: true },
                Face { first: 2, second: 1, third: 0, colored: true },
            ]);
        }
        other => panic!("unexpected {other:?}"),
    }
}

#[test]
fn obj_color_only_where_channels_read() {
    let content = "v 1 2 3 r g b\nv 1 2 3\nf 1 2 2\n";
    match read(content) {
        ObjRead::Model(m) => {
            assert_eq!(m.vertices.len(), 2);
            assert_eq!(m.colors.len(), 1);
            assert_eq!(m.faces, vec![Face { first: 0, second: 1, third: 1, colored: false }]);
        }
        other => panic!("unexpected {other:?}"),
    }
}

#[test]
fn obj_missing_vertex_and_zero_index() {
    assert!(matches!(read("v 0 0 0\nf 1 1 2\n"), ObjRead::MissingVertex));
    assert!(matches!(read("v 0 0 0\nf 0 1 1\n"), ObjRead::ZeroIndex));
    assert!(matches!(read("v 0 0 0\nf 2 0 1\n"), ObjRead::MissingVertex));
    assert!(matches!(read("f 1 2 3\nv 0 0 0\n"), ObjRead::MissingVertex));
}

#[test]
fn obj_ignores_unreadable_faces() {
    match read("v 0 0 0\nf 1 a 1\nf 1 1\nvn 0 0 1\n") {
        ObjRead::Model(m) => assert!(m.faces.is_empty()),
        other => panic!("unexpected {other:?}"),
    }
}
