use save_swap::fields::get_game_name_from_manifest;
use save_swap::fields::get_persona_name;
use save_swap::fields::paths_of_values;
use save_swap::fields::persona_or_id;
use save_swap::fields::read_declared_libraries;
use save_swap::fields::read_field;
use save_swap::fields::usable_value;

const PERSONA: &str = "\"PersonaName\"\\s+\"([^\"]+)\"";
const NAME: &str = "\"name\"\\s+\"([^\"]+)\"";

#[test]
fn persona_name_is_read_from_config() {
    let config = Some("\"UserLocalConfigStore\"\n{\n\t\t\"PersonaName\"\t\t\"NiceStalker\"\n}\n".to_string());
    assert_eq!(get_persona_name(&config, "12345"), "NiceStalker");
}

#[test]
fn persona_name_falls_back_to_id() {
    assert_eq!(get_persona_name(&None, "12345"), "12345");
    assert_eq!(get_persona_name(&Some(String::new()), "12345"), "12345");
    assert_eq!(get_persona_name(&Some("\"PersonaName\"\t\"   \"".to_string()), "12345"), "12345");
    assert_eq!(get_persona_name(&Some("\"PersonaName\" \"\"".to_string()), "12345"), "12345");
    assert_eq!(get_persona_name(&Some("\"personaname\" \"x\"".to_string()), "12345"), "12345");
    assert_eq!(get_persona_name(&Some("\"PersonaName\"\"x\"".to_string()), "12345"), "12345");
}

#[test]
fn persona_name_is_trimmed_and_first_match_wins() {
    let config = Some("\"PersonaName\"  \"  Alice B  \"\n\"PersonaName\" \"Bob\"".to_string());
    assert_eq!(get_persona_name(&config, "1"), "Alice B");
}

#[test]
fn field_reader_returns_first_group() {
    assert_eq!(read_field("\"name\"\t\t\"Half-Life\"", NAME), Some("Half-Life".to_string()));
    assert_eq!(read_field("\"appid\" \"70\"\n\"name\"\n\"Half-Life\"", NAME), Some("Half-Life".to_string()));
    assert_eq!(read_field("nothing here", NAME), None);
    assert_eq!(read_field("\"PersonaName\" \"x\"", PERSONA), Some("x".to_string()));
    assert_eq!(read_field("\"name\" \"x\"", "\"name\" \"x\""), None);
    assert_eq!(read_field("\"name\" \"x\"", "("), None);
}

#[test]
fn usable_value_trims_and_drops_empty() {
    assert_eq!(usable_value(None), None);
    assert_eq!(usable_value(Some(String::new())), None);
    assert_eq!(usable_value(Some(" \t ".to_string())), None);
    assert_eq!(usable_value(Some(" x ".to_string())), Some("x".to_string()));
    assert_eq!(usable_value(Some("two words".to_string())), Some("two words".to_string()));
    assert_eq!(persona_or_id(None, "7"), "7");
    assert_eq!(persona_or_id(Some("P".to_string()), "7"), "P");
}

#[test]
fn manifest_name_is_first_usable_one() {
    let manifests = vec![
        None,
        Some("\"AppState\" { \"appid\" \"70\" }".to_string()),
        Some("\"name\" \"  \"".to_string()),
        Some("\"name\"\t\"Half-Life\"".to_string()),
        Some("\"name\"\t\"Other\"".to_string()),
    ];
    assert_eq!(get_game_name_from_manifest(&manifests), Some("Half-Life".to_string()));
    assert_eq!(get_game_name_from_manifest(&Vec::new()), None);
    assert_eq!(get_game_name_from_manifest(&vec![None, Some(String::new())]), None);
}

#[test]
fn declared_libraries_are_read_in_order() {
    let registry = "\"libraryfolders\"\n{\n\t\"0\"\n\t{\n\t\t\"path\"\t\t\"C:\\\\Program Files (x86)\\\\Steam\"\n\t}\n\t\"1\"\n\t{\n\t\t\"path\"\t\t\"D:\\\\Games\"\n\t}\n\t\"2\"\n\t{\n\t\t\"path\"\t\t\"/mnt/lib\"\n\t}\n}\n";
    assert_eq!(
        read_declared_libraries(registry),
        vec![
            "C:\\Program Files (x86)\\Steam".to_string(),
            "D:\\Games".to_string(),
            "/mnt/lib".to_string()
        ]
    );
    assert_eq!(read_declared_libraries(""), Vec::<String>::new());
    assert_eq!(read_declared_libraries("\"path\" \"\""), Vec::<String>::new());
}

#[test]
fn values_become_paths() {
    let found = vec![Some("a\\\\b".to_string()), None, Some("c".to_string())];
    assert_eq!(paths_of_values(&found), vec!["a\\b".to_string(), "c".to_string()]);
}
