use nixgen::{decode, parse_descriptor, parse_json, DecodeError, Field, GenError, Generation, Json, SyntaxError};

const MINIMAL: &str = r#"{
  "org.nixos.bootspec.v1": {
    "init": "/nix/store/abc-system/init",
    "kernel": "/nix/store/def-linux/bzImage",
    "kernelParams": ["loglevel=4", "quiet", "init=/x"],
    "label": "NixOS 24.05 (Linux 6.6.30)",
    "system": "x86_64-linux"
  },
  "org.nixos.specialisation.v1": {}
}"#;

fn parse(text: &str) -> Result<Generation, GenError> {
    parse_descriptor("/p/boot.json", text)
}

fn decode_err(text: &str) -> DecodeError {
    match parse(text) {
        Err(GenError::Decode { error, .. }) => error,
        other => panic!("expected a decode error, got {:?}", other),
    }
}

#[test]
fn minimal_descriptor_fields() {
    let g = parse(MINIMAL).unwrap();
    assert_eq!(g.label(), "NixOS 24.05 (Linux 6.6.30)");
    assert_eq!(g.bootspec.init, "/nix/store/abc-system/init");
    assert_eq!(g.bootspec.kernel, "/nix/store/def-linux/bzImage");
    assert_eq!(g.bootspec.system, "x86_64-linux");
    assert_eq!(g.bootspec.kernel_params, vec!["loglevel=4", "quiet", "init=/x"]);
    assert!(g.bootspec.initrd.is_none());
    assert!(g.bootspec.init_secrets.is_none());
    assert!(g.bootspec.top_level.is_none());
    assert!(g.specialisation.is_empty());
}

#[test]
fn reencoding_preserves_fields() {
    let g = parse(MINIMAL).unwrap();
    let again = decode(g.into_json()).unwrap();
    assert_eq!(again.label(), "NixOS 24.05 (Linux 6.6.30)");
    assert_eq!(again.bootspec.init, "/nix/store/abc-system/init");
    assert_eq!(again.bootspec.kernel, "/nix/store/def-linux/bzImage");
    assert_eq!(again.bootspec.system, "x86_64-linux");
    assert_eq!(again.bootspec.kernel_params, vec!["loglevel=4", "quiet", "init=/x"]);
    assert!(again.bootspec.initrd.is_none());
    assert!(again.bootspec.top_level.is_none());
}

#[test]
fn encoding_has_two_top_level_keys() {
    let g = parse(MINIMAL).unwrap();
    match g.into_json() {
        Json::Object(top) => {
            assert_eq!(top.len(), 2);
            assert_eq!(top[0].0, "org.nixos.bootspec.v1");
            assert_eq!(top[1].0, "org.nixos.specialisation.v1");
        }
        other => panic!("not an object: {:?}", other),
    }
}

#[test]
fn extra_top_level_keys_are_ignored() {
    let text = r#"{
      "org.example.extension": {"anything": [1, 2, 3]},
      "org.nixos.bootspec.v1": {
        "init": "/nix/store/abc-system/init",
        "kernel": "/nix/store/def-linux/bzImage",
        "kernelParams": ["loglevel=4", "quiet", "init=/x"],
        "label": "NixOS 24.05 (Linux 6.6.30)",
        "system": "x86_64-linux"
      },
      "org.nixos.specialisation.v1": {},
      "zzz": null
    }"#;
    let with_extra = parse(text).unwrap();
    let plain = parse(MINIMAL).unwrap();
    assert_eq!(with_extra.label(), plain.label());
    assert_eq!(with_extra.bootspec.init, plain.bootspec.init);
    assert_eq!(with_extra.bootspec.kernel, plain.bootspec.kernel);
    assert_eq!(with_extra.bootspec.kernel_params, plain.bootspec.kernel_params);
    assert_eq!(with_extra.bootspec.system, plain.bootspec.system);
    assert!(with_extra.specialisation.is_empty());
}

#[test]
fn optional_fields_are_read() {
    let text = r#"{
      "org.nixos.bootspec.v1": {
        "init": "/i", "initrd": "/nix/store/x-initrd", "initSecrets": null,
        "kernel": "/k", "kernelParams": [], "label": "L", "system": "aarch64-linux",
        "topLevel": "/nix/store/t"
      },
      "org.nixos.specialisation.v1": {"debug": {"org.nixos.bootspec.v1": {}}}
    }"#;
    let g = parse(text).unwrap();
    assert_eq!(g.bootspec.initrd.as_deref(), Some("/nix/store/x-initrd"));
    assert!(g.bootspec.init_secrets.is_none());
    assert_eq!(g.bootspec.top_level.as_deref(), Some("/nix/store/t"));
    assert!(g.bootspec.kernel_params.is_empty());
    assert_eq!(g.specialisation.len(), 1);
    assert_eq!(g.specialisation[0].0, "debug");
}

#[test]
fn missing_label_is_reported() {
    let text = r#"{"org.nixos.bootspec.v1": {"init": "/i", "kernel": "/k", "kernelParams": [], "system": "s"},
                  "org.nixos.specialisation.v1": {}}"#;
    assert_eq!(decode_err(text), DecodeError::Missing(Field::Label));
    assert_eq!(Field::Label.key(), "label");
}

#[test]
fn missing_init_is_reported_first() {
    let text = r#"{"org.nixos.bootspec.v1": {"kernelParams": []}, "org.nixos.specialisation.v1": {}}"#;
    assert_eq!(decode_err(text), DecodeError::Missing(Field::Init));
}

#[test]
fn missing_sections_are_reported() {
    assert_eq!(decode_err(r#"{"org.nixos.specialisation.v1": {}}"#), DecodeError::Missing(Field::Bootspec));
    let text = r#"{"org.nixos.bootspec.v1": {"init": "/i", "kernel": "/k", "kernelParams": [], "label": "l", "system": "s"}}"#;
    assert_eq!(decode_err(text), DecodeError::Missing(Field::Specialisation));
}

#[test]
fn wrong_shapes_are_reported() {
    let text = r#"{"org.nixos.bootspec.v1": {"init": "/i", "kernel": "/k", "kernelParams": ["a", 3], "label": "l", "system": "s"},
                  "org.nixos.specialisation.v1": {}}"#;
    assert_eq!(decode_err(text), DecodeError::Invalid(Field::KernelParams));
    let text = r#"{"org.nixos.bootspec.v1": {"init": 1, "kernel": "/k", "kernelParams": [], "label": "l", "system": "s"},
                  "org.nixos.specialisation.v1": {}}"#;
    assert_eq!(decode_err(text), DecodeError::Invalid(Field::Init));
    assert_eq!(decode_err("[1, 2]"), DecodeError::NotAnObject(None));
    assert_eq!(decode_err(r#"{"org.nixos.bootspec.v1": 5}"#), DecodeError::NotAnObject(Some(Field::Bootspec)));
    let text = r#"{"org.nixos.bootspec.v1": {"init": "/i", "kernel": "/k", "kernelParams": [], "label": "l", "system": "s"},
                  "org.nixos.specialisation.v1": []}"#;
    assert_eq!(decode_err(text), DecodeError::NotAnObject(Some(Field::Specialisation)));
}

#[test]
fn syntax_errors_name_the_path() {
    match parse("{ not json") {
        Err(GenError::Syntax { path, syntax: SyntaxError::Invalid(e) }) => {
            assert_eq!(path, "/p/boot.json");
            assert!(e.is_syntax());
        }
        other => panic!("expected a syntax error, got {:?}", other),
    }
}

#[test]
fn json_text_is_parsed_into_a_tree() {
    match parse_json(r#"{"a": [true, null, 1.5, "x"]}"#).unwrap() {
        Json::Object(entries) => {
            assert_eq!(entries.len(), 1);
            assert_eq!(entries[0].0, "a");
            match &entries[0].1 {
                Json::Array(items) => {
                    assert_eq!(items.len(), 4);
                    assert!(matches!(items[0], Json::Bool(true)));
                    assert!(matches!(items[1], Json::Null));
                    assert!(matches!(&items[2], Json::Number(n) if n == "1.5"));
                    assert!(matches!(&items[3], Json::Str(s) if s == "x"));
                }
                other => panic!("not an array: {:?}", other),
            }
        }
        other => panic!("not an object: {:?}", other),
    }
}
