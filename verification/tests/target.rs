use dotter::parse::{Field, RawField, RawTarget, RawValue, TargetError};
use dotter::target::{FileTarget, TemplateTarget};

fn text(key: &str, value: &str) -> RawField {
    RawField { key: key.to_string(), value: RawValue::Text(value.to_string()) }
}

fn template(target: &str, append: Option<&str>, prepend: Option<&str>) -> FileTarget {
    FileTarget::ComplexTemplate(TemplateTarget {
        target: target.to_string(),
        append: append.map(|s| s.to_string()),
        prepend: prepend.map(|s| s.to_string()),
    })
}

#[test]
fn path_is_the_target_path_of_every_variant() {
    assert_eq!(FileTarget::Automatic("a/b".to_string()).path(), "a/b");
    assert_eq!(FileTarget::Symbolic("~/x".to_string()).path(), "~/x");
    assert_eq!(template("out.conf", Some("tail"), None).path(), "out.conf");
}

#[test]
fn map_rewrites_the_path_and_keeps_the_rest() {
    let upper = |p: String| p.to_uppercase();
    assert_eq!(
        FileTarget::Automatic("a".to_string()).map(upper),
        FileTarget::Automatic("A".to_string())
    );
    assert_eq!(
        FileTarget::Symbolic("b".to_string()).map(|p| format!("/root/{}", p)),
        FileTarget::Symbolic("/root/b".to_string())
    );
    assert_eq!(
        template("c", Some("x"), Some("y")).map(|p| format!("{}{}", p, p)),
        template("cc", Some("x"), Some("y"))
    );
}

#[test]
fn from_string_is_a_plain_target() {
    assert_eq!(FileTarget::from("t".to_string()), FileTarget::Automatic("t".to_string()));
}

#[test]
fn tombstone_is_the_empty_path() {
    assert!(FileTarget::Automatic(String::new()).is_tombstone());
    assert!(FileTarget::Symbolic(String::new()).is_tombstone());
    assert!(template("", None, None).is_tombstone());
    assert!(!FileTarget::Automatic(" ".to_string()).is_tombstone());
}

#[test]
fn bare_string_parses_as_plain_target() {
    assert_eq!(
        FileTarget::parse(RawTarget::Text("~/.vimrc".to_string())),
        Ok(FileTarget::Automatic("~/.vimrc".to_string()))
    );
    assert_eq!(
        FileTarget::parse(RawTarget::Text(String::new())),
        Ok(FileTarget::Automatic(String::new()))
    );
}

#[test]
fn symbolic_record_parses() {
    let raw = RawTarget::Record(vec![text("target", "~/.zshrc"), text("type", "symbolic")]);
    assert_eq!(FileTarget::parse(raw), Ok(FileTarget::Symbolic("~/.zshrc".to_string())));
}

#[test]
fn template_record_parses_with_and_without_affixes() {
    let bare = RawTarget::Record(vec![text("type", "template"), text("target", "x")]);
    assert_eq!(FileTarget::parse(bare), Ok(template("x", None, None)));
    let full = RawTarget::Record(vec![
        text("prepend", "# head\n"),
        text("type", "template"),
        text("append", "# tail\n"),
        text("target", "x"),
    ]);
    assert_eq!(FileTarget::parse(full), Ok(template("x", Some("# tail\n"), Some("# head\n"))));
}

#[test]
fn neither_string_nor_record_is_rejected() {
    assert_eq!(FileTarget::parse(RawTarget::Other), Err(TargetError::NotStringOrRecord));
}

#[test]
fn unknown_field_is_rejected_and_named() {
    let raw = RawTarget::Record(vec![text("type", "symbolic"), text("mode", "0644")]);
    assert_eq!(FileTarget::parse(raw), Err(TargetError::UnknownField("mode".to_string())));
}

#[test]
fn duplicate_field_is_rejected() {
    for (key, field) in [
        ("type", Field::Type),
        ("target", Field::Target),
        ("append", Field::Append),
        ("prepend", Field::Prepend),
    ] {
        let raw = RawTarget::Record(vec![text(key, "template"), text(key, "template")]);
        assert_eq!(FileTarget::parse(raw), Err(TargetError::DuplicateField(field)));
    }
}

#[test]
fn value_that_is_no_string_is_rejected() {
    let raw = RawTarget::Record(vec![
        text("type", "template"),
        RawField { key: "target".to_string(), value: RawValue::Other },
    ]);
    assert_eq!(FileTarget::parse(raw), Err(TargetError::NotText(Field::Target)));
}

#[test]
fn missing_type_is_reported_before_missing_target() {
    assert_eq!(
        FileTarget::parse(RawTarget::Record(vec![])),
        Err(TargetError::MissingField(Field::Type))
    );
    assert_eq!(
        FileTarget::parse(RawTarget::Record(vec![text("target", "x")])),
        Err(TargetError::MissingField(Field::Type))
    );
    assert_eq!(
        FileTarget::parse(RawTarget::Record(vec![text("type", "symbolic")])),
        Err(TargetError::MissingField(Field::Target))
    );
}

#[test]
fn affix_on_symbolic_is_rejected() {
    let with_append = RawTarget::Record(vec![
        text("type", "symbolic"),
        text("target", "x"),
        text("append", "tail"),
    ]);
    assert_eq!(FileTarget::parse(with_append), Err(TargetError::AffixOnSymbolic));
    let with_prepend = RawTarget::Record(vec![
        text("prepend", "head"),
        text("type", "symbolic"),
        text("target", "x"),
    ]);
    assert_eq!(FileTarget::parse(with_prepend), Err(TargetError::AffixOnSymbolic));
}

#[test]
fn unknown_type_is_rejected_and_named() {
    let raw = RawTarget::Record(vec![text("type", "copy"), text("target", "x")]);
    assert_eq!(FileTarget::parse(raw), Err(TargetError::UnknownType("copy".to_string())));
}

#[test]
fn first_error_in_document_order_wins() {
    let raw = RawTarget::Record(vec![
        text("type", "symbolic"),
        text("type", "template"),
        text("bogus", "x"),
    ]);
    assert_eq!(FileTarget::parse(raw), Err(TargetError::DuplicateField(Field::Type)));
    let raw = RawTarget::Record(vec![
        text("bogus", "x"),
        text("type", "symbolic"),
        text("type", "template"),
    ]);
    assert_eq!(FileTarget::parse(raw), Err(TargetError::UnknownField("bogus".to_string())));
}

#[test]
fn error_messages_name_what_is_at_fault() {
    assert_eq!(
        TargetError::UnknownType("copy".to_string()).message(),
        "invalid value: string \"copy\", expected `symbolic` or `template`"
    );
    assert_eq!(TargetError::MissingField(Field::Type).message(), "missing field `type`");
    assert_eq!(TargetError::MissingField(Field::Target).message(), "missing field `target`");
    assert_eq!(TargetError::DuplicateField(Field::Append).message(), "duplicate field `append`");
    assert_eq!(
        TargetError::NotText(Field::Prepend).message(),
        "invalid type: expected a string for `prepend`"
    );
    assert_eq!(
        TargetError::UnknownField("mode".to_string()).message(),
        "unknown field `mode`, expected one of `target`, `append`, `prepend`, `type`"
    );
    assert_eq!(
        TargetError::AffixOnSymbolic.message(),
        "invalid use of `append` or `prepend` on a symbolic target"
    );
    assert_eq!(
        TargetError::NotStringOrRecord.message(),
        "invalid type: expected a string or a map"
    );
}

#[test]
fn field_names_are_the_keys_of_the_document() {
    assert_eq!(Field::Target.name(), "target");
    assert_eq!(Field::Append.name(), "append");
    assert_eq!(Field::Prepend.name(), "prepend");
    assert_eq!(Field::Type.name(), "type");
}

#[test]
fn plain_target_is_written_as_bare_string_and_read_back() {
    let target = FileTarget::Automatic("x".to_string());
    let raw = target.to_raw();
    assert_eq!(raw, RawTarget::Text("x".to_string()));
    assert_eq!(FileTarget::parse(raw), Ok(target));
}

#[test]
fn template_without_affixes_is_read_back_from_its_record() {
    let target = template("x", None, None);
    let raw = target.to_raw();
    assert_eq!(raw, RawTarget::Record(vec![text("type", "template"), text("target", "x")]));
    assert_eq!(FileTarget::parse(raw), Ok(target));
}

#[test]
fn every_variant_is_read_back_as_written() {
    for target in [
        FileTarget::Automatic(String::new()),
        FileTarget::Symbolic("~/link".to_string()),
        template("t", Some("a"), None),
        template("t", None, Some("p")),
        template("t", Some("a"), Some("p")),
    ] {
        assert_eq!(FileTarget::parse(target.to_raw()), Ok(target));
    }
}
