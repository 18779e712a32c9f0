use shmin::doc_merge::{canonical_name, derive_module_name, merge};
use shmin::{Document, FileDoc, FunctionDoc, ImplLang, Implementation};

#[test]
fn module_name_from_sh() {
    assert_eq!(derive_module_name("libraries/to.sh"), "to");
    assert_eq!(derive_module_name("to.sh"), "to");
}

#[test]
fn module_name_from_rs() {
    assert_eq!(derive_module_name("builtin/src/to.rs"), "to");
}

#[test]
fn canonical_strips_colon() {
    assert_eq!(canonical_name(":args"), "args");
    assert_eq!(canonical_name("to::int"), "to::int");
}

#[test]
fn merge_single_doc() {
    let docs = vec![(
        "to.sh".to_string(),
        Document {
            file: FileDoc { title: Some("to".to_string()), ..Default::default() },
            functions: vec![FunctionDoc {
                name: "to::int".to_string(),
                description: Some("Validate int".to_string()),
                implementations: vec![Implementation {
                    lang: ImplLang::Bash,
                    source_file: "to.sh".to_string(),
                }],
                ..Default::default()
            }],
        },
    )];

    let result = merge(docs);
    assert_eq!(result.len(), 1);
    assert_eq!(result[0].1.functions[0].implementations.len(), 1);
}

#[test]
fn merge_bash_and_rust() {
    let docs = vec![
        (
            "to.sh".to_string(),
            Document {
                file: FileDoc {
                    title: Some("to".to_string()),
                    description: Some("Type converters".to_string()),
                    ..Default::default()
                },
                functions: vec![FunctionDoc {
                    name: "to::int".to_string(),
                    description: Some("Validate integer from bash".to_string()),
                    implementations: vec![Implementation {
                        lang: ImplLang::Bash,
                        source_file: "to.sh".to_string(),
                    }],
                    ..Default::default()
                }],
            },
        ),
        (
            "to.rs".to_string(),
            Document {
                file: FileDoc { title: Some("to".to_string()), ..Default::default() },
                functions: vec![FunctionDoc {
                    name: "to::int".to_string(),
                    description: Some("Validate integer from rust".to_string()),
                    implementations: vec![Implementation {
                        lang: ImplLang::Rust,
                        source_file: "to.rs".to_string(),
                    }],
                    ..Default::default()
                }],
            },
        ),
    ];

    let result = merge(docs);
    assert_eq!(result.len(), 1);
    let funcs = &result[0].1.functions;
    assert_eq!(funcs.len(), 1);
    assert_eq!(funcs[0].implementations.len(), 2);
    assert_eq!(funcs[0].description.as_deref(), Some("Validate integer from bash"));
}
