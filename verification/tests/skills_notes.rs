use provision::error::AppError;
use provision::notes::{Note, NoteFeature, NoteService};
use provision::skill::{SkillMetadata, SkillParser, SkillRecord, SkillRepository};

fn metadata(name: &str, description: &str) -> SkillMetadata {
    SkillMetadata {
        name: name.to_owned(),
        description: description.to_owned(),
        license: None,
        compatibility: None,
        metadata: None,
        allowed_tools: None,
    }
}

#[test]
fn valid_metadata_is_accepted() {
    assert!(SkillParser::validate_metadata(&metadata("web-search", "Searches the web.")).is_ok());
    assert!(SkillParser::validate_metadata(&metadata("a", "x")).is_ok());
}

#[test]
fn invalid_names_are_rejected() {
    let cases = [
        "",                    // empty
        "UpperCase",           // not lowercase
        "has space",           // disallowed byte
        "-leading",            // leading hyphen
        "trailing-",           // trailing hyphen
        "two--hyphens",        // consecutive hyphens
    ];
    for name in cases {
        let r = SkillParser::validate_metadata(&metadata(name, "fine"));
        assert!(matches!(r, Err(AppError::Validation(_))), "accepted {:?}", name);
    }
    let long = "a".repeat(65);
    assert!(SkillParser::validate_metadata(&metadata(&long, "fine")).is_err());
    let max = "a".repeat(64);
    assert!(SkillParser::validate_metadata(&metadata(&max, "fine")).is_ok());
}

#[test]
fn invalid_descriptions_are_rejected() {
    assert!(SkillParser::validate_metadata(&metadata("ok", "")).is_err());
    let long = "d".repeat(1025);
    assert!(SkillParser::validate_metadata(&metadata("ok", &long)).is_err());
    let max = "d".repeat(1024);
    assert!(SkillParser::validate_metadata(&metadata("ok", &max)).is_ok());
}

#[test]
fn frontmatter_splits_yaml_and_instructions() {
    let content = b"---\nname: web-search\ndescription: d\n---\n\nDo the thing.\n".to_vec();
    let (yaml, instructions) = SkillParser::parse_frontmatter(&content).unwrap();
    assert_eq!(yaml, b"\nname: web-search\ndescription: d".to_vec());
    assert_eq!(instructions, b"Do the thing.".to_vec());
}

#[test]
fn frontmatter_requires_opening_fence() {
    let r = SkillParser::parse_frontmatter(&b"name: x\n---\n".to_vec());
    assert!(matches!(r, Err(AppError::Validation(_))));
}

#[test]
fn frontmatter_requires_closing_fence() {
    let r = SkillParser::parse_frontmatter(&b"---\nname: x\n".to_vec());
    assert!(matches!(r, Err(AppError::Validation(_))));
}

fn record(id: &str, name: &str) -> SkillRecord {
    SkillRecord {
        id: id.to_owned(),
        name: name.to_owned(),
        description: "d".to_owned(),
        metadata_json: None,
        path: "/skills/".to_owned(),
        created_at: 1,
        updated_at: 1,
    }
}

#[test]
fn skill_repository_upsert_replaces_by_id() {
    let mut repo = SkillRepository::new();
    repo.upsert(record("web-search", "web-search")).unwrap();
    repo.upsert(record("summarize", "summarize")).unwrap();
    assert_eq!(repo.get_all().len(), 2);
    repo.upsert(record("web-search", "renamed")).unwrap();
    assert_eq!(repo.get_all().len(), 2);
    assert_eq!(repo.get_by_id("web-search").unwrap().name, "renamed");
    assert!(repo.get_by_id("absent").is_none());
    repo.delete("web-search").unwrap();
    assert!(repo.get_by_id("web-search").is_none());
    assert_eq!(repo.get_all().len(), 1);
    // deleting an absent id is a no-op
    repo.delete("web-search").unwrap();
    assert_eq!(repo.get_all().len(), 1);
}

fn note(id: &str, title: &str) -> Note {
    Note {
        id: id.to_owned(),
        title: title.to_owned(),
        content: "c".to_owned(),
        created_at: 10,
        updated_at: 10,
    }
}

#[test]
fn note_store_create_update_delete() {
    let mut service = NoteService::new();
    service.create_note(note("n1", "first")).unwrap();
    service.create_note(note("n2", "second")).unwrap();
    assert!(service.create_note(note("n1", "dup")).is_err());
    assert_eq!(service.get_notes().len(), 2);
    service
        .update_note("n1".to_owned(), "renamed".to_owned(), "cc".to_owned(), 20)
        .unwrap();
    assert_eq!(service.get_notes()[0].title, "renamed");
    assert_eq!(service.get_notes()[0].updated_at, 20);
    assert_eq!(service.get_notes()[0].created_at, 10);
    // updating an absent id succeeds without change
    service
        .update_note("zz".to_owned(), "t".to_owned(), "c".to_owned(), 30)
        .unwrap();
    assert_eq!(service.get_notes().len(), 2);
    service.delete_note("n1".to_owned()).unwrap();
    assert_eq!(service.get_notes().len(), 1);
    assert_eq!(service.get_notes()[0].id, "n2");
    let feature = NoteFeature::new(service);
    assert_eq!(feature.service.get_notes().len(), 1);
}

#[test]
fn skills_xml_lists_stored_skills_in_request_order() {
    let mut repo = SkillRepository::new();
    repo.upsert(record("web-search", "web-search")).unwrap();
    let ids = vec!["web-search".to_owned(), "missing".to_owned()];
    let xml = repo.generate_skills_xml(&ids);
    let mut expected = String::new();
    expected.push_str("<available_skills>\n");
    expected.push_str("  <skill>\n    <name>web-search</name>\n    <description>d</description>\n");
    expected.push_str("    <location>/skills//SKILL.md</location>\n  </skill>\n");
    expected.push_str("</available_skills>\n\n");
    expected.push_str("You have access to a set of skills you can use to help the user.\n");
    expected.push_str("When a task matches a skill's description, use the read_file tool to load the full instructions from the skill's SKILL.md file.\n");
    expected.push_str("Follow the instructions exactly as documented in the skill file.\n");
    assert_eq!(xml, expected);
    assert_eq!(repo.generate_skills_xml(&Vec::new()), "");
}

#[test]
fn skills_markdown_lists_stored_skills() {
    let mut repo = SkillRepository::new();
    repo.upsert(record("summarize", "summarize")).unwrap();
    let ids = vec!["summarize".to_owned()];
    let markdown = repo.generate_skills_markdown(&ids);
    let mut expected = String::new();
    expected.push_str("## Available Skills\n\n");
    expected.push_str("- **summarize**: d\n  - Location: `/skills//SKILL.md`\n");
    expected.push_str("\n\n");
    expected.push_str("You have access to a set of skills you can use to help the user.\n");
    expected.push_str("When a task matches a skill's description, use the `read_file` tool to load the full instructions from the skill's `SKILL.md` file at the specified location.\n");
    expected.push_str("Follow the instructions exactly as documented in the skill file.\n");
    assert_eq!(markdown, expected);
    assert_eq!(repo.generate_skills_markdown(&Vec::new()), "");
}
