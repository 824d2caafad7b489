use raytracer::wavefront_mtl::{MtlAction, MtlDefinition, MtlReader, WavefrontMtl};
use raytracer::wavefront_obj::FileError;

fn text(s: &str) -> String {
    s.to_string()
}

fn colour(r: &str, g: &str, b: &str) -> Option<(String, String, String)> {
    Some((text(r), text(g), text(b)))
}

#[test]
fn mtl_reader_starts_empty() {
    let reader = MtlReader::new();
    assert_eq!(reader.name, None);
    assert_eq!(reader.definition, MtlDefinition { diffusion: None, map: None });
    assert_eq!(reader.mtl, WavefrontMtl { definitions: vec![], maps: vec![] });
    assert_eq!(reader.finish(), WavefrontMtl::new());
}

#[test]
fn mtl_definition_starts_empty() {
    assert_eq!(MtlDefinition::new(), MtlDefinition { diffusion: None, map: None });
}

#[test]
fn newmtl_opens_a_material() {
    let mut reader = MtlReader::new();
    assert_eq!(reader.read_line("newmtl wood"), Ok(MtlAction::Nothing));
    assert_eq!(reader.name, Some(text("wood")));
    assert!(reader.mtl.definitions.is_empty());
    let mtl = reader.finish();
    assert_eq!(mtl.definitions, vec![(text("wood"), MtlDefinition { diffusion: None, map: None })]);
}

#[test]
fn kd_sets_the_colour() {
    let mut reader = MtlReader::new();
    assert_eq!(reader.read_line("newmtl wood"), Ok(MtlAction::Nothing));
    assert_eq!(reader.read_line("Kd 0.5 0.25 0.125"), Ok(MtlAction::Nothing));
    assert_eq!(reader.definition.diffusion, colour("0.5", "0.25", "0.125"));
    assert_eq!(reader.read_line("Kd 1 1 1 extra"), Ok(MtlAction::Nothing));
    let mtl = reader.finish();
    assert_eq!(mtl.definitions[0].1.diffusion, colour("1", "1", "1"));
}

#[test]
fn map_kd_asks_for_a_file_once() {
    let mut reader = MtlReader::new();
    assert_eq!(reader.read_line("newmtl a"), Ok(MtlAction::Nothing));
    assert_eq!(
        reader.read_line("map_Kd wood.png"),
        Ok(MtlAction::LoadMap { file: text("wood.png"), id: 0 })
    );
    assert_eq!(reader.read_line("newmtl b"), Ok(MtlAction::Nothing));
    assert_eq!(
        reader.read_line("map_Kd stone.png"),
        Ok(MtlAction::LoadMap { file: text("stone.png"), id: 1 })
    );
    assert_eq!(reader.read_line("newmtl c"), Ok(MtlAction::Nothing));
    assert_eq!(reader.read_line("map_Kd wood.png"), Ok(MtlAction::Nothing));
    let mtl = reader.finish();
    assert_eq!(mtl.maps, vec![text("wood.png"), text("stone.png")]);
    let maps: Vec<Option<usize>> = mtl.definitions.iter().map(|entry| entry.1.map).collect();
    assert_eq!(maps, vec![Some(0), Some(1), Some(0)]);
    assert_eq!(mtl.find_map("stone.png"), Some(1));
    assert_eq!(mtl.find_map("none.png"), None);
}

#[test]
fn newmtl_closes_the_open_material() {
    let mut reader = MtlReader::new();
    for line in ["newmtl a", "Kd 1 0 0", "newmtl b", "newmtl c", "Kd 0 0 1"] {
        assert!(reader.read_line(line).is_ok());
    }
    assert_eq!(
        reader.mtl.definitions,
        vec![
            (text("a"), MtlDefinition { diffusion: colour("1", "0", "0"), map: None }),
            (text("b"), MtlDefinition { diffusion: None, map: None }),
        ]
    );
    let mtl = reader.finish();
    assert_eq!(mtl.definitions.len(), 3);
    assert_eq!(mtl.definitions[2].0, "c");
    assert_eq!(mtl.definitions[2].1.diffusion, colour("0", "0", "1"));
}

#[test]
fn what_comes_before_the_first_newmtl_stays_with_it() {
    let mut reader = MtlReader::new();
    assert!(reader.read_line("Kd 0.1 0.2 0.3").is_ok());
    assert!(reader.read_line("map_Kd early.png").is_ok());
    assert_eq!(reader.read_line("newmtl first"), Ok(MtlAction::Nothing));
    assert!(reader.mtl.definitions.is_empty());
    let mtl = reader.finish();
    assert_eq!(
        mtl.definitions,
        vec![(text("first"), MtlDefinition { diffusion: colour("0.1", "0.2", "0.3"), map: Some(0) })]
    );
}

#[test]
fn a_file_without_newmtl_has_no_material() {
    let mut reader = MtlReader::new();
    assert!(reader.read_line("Kd 0.1 0.2 0.3").is_ok());
    assert!(reader.read_line("map_Kd early.png").is_ok());
    let mtl = reader.finish();
    assert!(mtl.definitions.is_empty());
    assert_eq!(mtl.maps, vec![text("early.png")]);
}

#[test]
fn mtl_reader_skips_other_lines() {
    let mut reader = MtlReader::new();
    for line in ["", "# comment", "Ka 1 1 1", "Ks 0 0 0", "Ns 10", "illum 2", "d 1.0", "kd 1 1 1"] {
        assert_eq!(reader.read_line(line), Ok(MtlAction::Nothing));
    }
    assert_eq!(reader, MtlReader::new());
}

#[test]
fn mtl_reader_fails_on_short_lines() {
    let mut reader = MtlReader::new();
    assert!(reader.read_line("newmtl a").is_ok());
    let before = reader.clone();
    for line in ["newmtl", "Kd", "Kd 1", "Kd 1 2", "map_Kd", "Kd 1 2 b", "Kd r g b", "Kd 1 . 1"] {
        assert_eq!(reader.read_line(line), Err(FileError {}), "{:?}", line);
    }
    assert_eq!(reader, before);
}

#[test]
fn find_definition_takes_the_last_of_a_name() {
    let mut reader = MtlReader::new();
    for line in ["newmtl a", "newmtl b", "newmtl a", "newmtl c"] {
        assert!(reader.read_line(line).is_ok());
    }
    let mtl = reader.finish();
    assert_eq!(mtl.find_definition("a"), Some(2));
    assert_eq!(mtl.find_definition("b"), Some(1));
    assert_eq!(mtl.find_definition("c"), Some(3));
    assert_eq!(mtl.find_definition("d"), None);
    assert_eq!(WavefrontMtl::new().find_definition("a"), None);
}
