use veneer::matrix::{
    check_schema, matrix_lines, Archetype, BehaviorLayer, ComponentLine, FileStatus, Frameworks,
    MatrixError, Motion, PortStatus, Uses, COMPONENT_LINE_SCHEMA,
};

fn line(schema: &str, name: &str, wc: FileStatus) -> ComponentLine {
    ComponentLine {
        schema: schema.to_string(),
        name: name.to_string(),
        archetype: Archetype::Static,
        status: PortStatus::Pending,
        provenance: None,
        metadata: None,
        is: "a".to_string(),
        does: "b".to_string(),
        states: vec![],
        uses: Uses { current: vec![], planned: vec![], note: None },
        motion: Motion { current: String::new(), intents: vec![] },
        frameworks: Frameworks {
            behavior_layer: BehaviorLayer {
                react: FileStatus::Missing,
                astro: FileStatus::Missing,
                wc,
                vue: FileStatus::Missing,
            },
            old_tree: vec![],
        },
    }
}

#[test]
fn wc_port_status_gates_the_preview() {
    let ported = line(COMPONENT_LINE_SCHEMA, "tooltip", FileStatus::Ported);
    assert!(ported.has_wc_preview(), "wc:ported can be previewed");
    let verified = line(COMPONENT_LINE_SCHEMA, "tooltip", FileStatus::Verified);
    assert!(verified.has_wc_preview());
    let missing = line(COMPONENT_LINE_SCHEMA, "alert", FileStatus::Missing);
    assert!(!missing.has_wc_preview(), "wc:missing is honestly absent, not previewable");
    let specced = line(COMPONENT_LINE_SCHEMA, "alert", FileStatus::Specced);
    assert!(!specced.has_wc_preview());
}

#[test]
fn blank_lines_are_skipped_and_numbered_from_one() {
    let numbered = matrix_lines("{\"a\":1}\n\n   \n{\"b\":2}\n");
    assert_eq!(
        numbered,
        vec![(1, "{\"a\":1}".to_string()), (4, "{\"b\":2}".to_string())]
    );
    assert!(matrix_lines("").is_empty());
}

#[test]
fn an_unknown_schema_discriminator_is_rejected_by_line() {
    let bad = line("rafters.component-line/2", "x", FileStatus::Missing);
    match check_schema(1, bad) {
        Err(MatrixError::Schema { line: 1, schema }) => {
            assert_eq!(schema, "rafters.component-line/2")
        }
        other => panic!("unknown schema must fail, got {:?}", other.map(|l| l.name)),
    }
    let good = check_schema(3, line(COMPONENT_LINE_SCHEMA, "y", FileStatus::Missing)).expect("known schema");
    assert_eq!(good.name, "y");
}
