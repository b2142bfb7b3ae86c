//! Patch layers, diagnoses and the profile.

use dsh_desktop::diagnose::{
    base_package, diagnose, extract_modules, resolve_row, DisableEntry, CORE_ROW_DENYLIST,
};
use dsh_desktop::patch::{
    append_disable_entries, backup_extension, comment_safe, load_bundle_pairs, safe_mode_overlay,
    scan_all_ids, scan_id_name_pairs, PatchPlan,
};
use dsh_desktop::profile::{
    bundle_layer_paths, declared_bundles, dsh_home, package_json_path, parse_bundles_json,
    profile_dir, safe_mode_path, user_patch_path,
};

const BUNDLE_YML: &str = r#"
- insert:
    - id: timer
      name: '@deepseek-ai/cordis-plugin-timer'
    - id: llm
      name: '@deepseek-ai/dsh-llm'
    - id: session-title-llm
      name: '@deepseek-ai/dsh-session-title-first-prompt-llm'
    - id: tool-subagent
      name: '@deepseek-ai/dsh-tool-subagent'
    - id: subagent-model-selection-settings
      name: '@deepseek-ai/dsh-tool-subagent/model-selection-settings'
    - id: webserver
      name: '@deepseek-ai/dsh-host-webserver'
"#;

fn entry(id: &str) -> DisableEntry {
    DisableEntry { id: id.into(), module: format!("pkg-{}", id), reason: "boom".into() }
}

/// The backup flag, the text and the ids of a plan that writes.
fn written(plan: PatchPlan) -> (bool, String, Vec<String>) {
    match plan {
        PatchPlan::Write { backup, text, added } => (backup, text, added),
        PatchPlan::Unchanged => panic!("nothing is written"),
    }
}

fn strings(v: &[&str]) -> Vec<String> {
    v.iter().map(|s| s.to_string()).collect()
}

// ---- rows -----------------------------------------------------------------------------------

#[test]
fn scans_bundle_pairs() {
    let pairs = scan_id_name_pairs(BUNDLE_YML);
    assert!(pairs.contains(&("llm".to_string(), "@deepseek-ai/dsh-llm".to_string())));
    assert!(pairs.contains(&(
        "subagent-model-selection-settings".to_string(),
        "@deepseek-ai/dsh-tool-subagent/model-selection-settings".to_string()
    )));
    assert_eq!(pairs.len(), 6);
}

#[test]
fn ignores_config_keys_named_id() {
    let text = "- id: a\n  name: 'x'\n  config:\n    id: not-an-entry\n";
    let pairs = scan_id_name_pairs(text);
    assert_eq!(pairs, vec![("a".to_string(), "x".to_string())]);
}

#[test]
fn another_row_drops_an_id_without_a_name() {
    let text = "- id: a\n- insert:\n  name: x\n- id: b\n  name: \"y\"\nname: z\n";
    let pairs = scan_id_name_pairs(text);
    assert_eq!(pairs, vec![("b".to_string(), "y".to_string())]);
    assert!(scan_id_name_pairs("- id: a\n- name: 'x'\n").is_empty());
    assert!(scan_id_name_pairs("- id: a\n- name: 'x'\n  name: 'y'\n").is_empty());
}

#[test]
fn ids_are_listed_once() {
    let ids = scan_all_ids("- id: a\n  - id: 'b'\r\n- id: a\n- id:\nid: c\n- id: \"d\"");
    assert_eq!(ids, vec!["a", "b", "d"]);
}

#[test]
fn unreadable_layers_have_no_rows() {
    let layers = vec![
        Some("- id: a\n  name: x\n".to_string()),
        None,
        Some("- id: b\n  name: y\n".to_string()),
    ];
    let pairs = load_bundle_pairs(&layers);
    assert_eq!(
        pairs,
        vec![("a".to_string(), "x".to_string()), ("b".to_string(), "y".to_string())]
    );
}

// ---- modules --------------------------------------------------------------------------------

#[test]
fn extracts_module_from_cannot_find() {
    let m = extract_modules("Error: Cannot find module '@deepseek-ai/dsh-llm'");
    assert_eq!(m, vec!["@deepseek-ai/dsh-llm".to_string()]);
}

#[test]
fn extracts_module_from_stack_frame() {
    let m = extract_modules(
        "    at load (/home/u/.dsh/profiles/node_modules/@deepseek-ai/dsh-session-title-first-prompt-llm/lib/index.js:10:15)",
    );
    assert_eq!(m, vec!["@deepseek-ai/dsh-session-title-first-prompt-llm".to_string()]);
}

#[test]
fn skips_framework_noise() {
    let m = extract_modules(
        "    at Loader.load (/x/node_modules/@deepseek-ai/cordis-plugin-loader/lib/index.js:1:1)",
    );
    assert!(m.is_empty());
}

#[test]
fn extracts_every_clue_of_a_line_once() {
    let m = extract_modules(
        "Cannot find package 'a' Cannot find module 'b' load plugin 'c' node_modules/d/x node_modules/a/y node_modules/node:fs/z node_modules/@s/p",
    );
    assert_eq!(m, vec!["b", "a", "c", "d", "@s/p"]);
    assert_eq!(extract_modules("Cannot find module 'unclosed"), Vec::<String>::new());
    assert_eq!(extract_modules("node_modules/@scope"), vec!["@scope"]);
}

#[test]
fn base_package_handles_paths() {
    assert_eq!(base_package("@deepseek-ai/dsh-web-app/startup"), "@deepseek-ai/dsh-web-app");
    assert_eq!(base_package("@deepseek-ai/dsh-llm"), "@deepseek-ai/dsh-llm");
    assert_eq!(base_package("plain-pkg/sub"), "plain-pkg");
    assert_eq!(base_package("plain-pkg"), "plain-pkg");
    assert_eq!(base_package("@ab/a/ab"), "@ab/a");
}

#[test]
fn base_package_counts_characters() {
    assert_eq!(base_package("@作用域/包/子"), "@作用域/包");
    assert_eq!(base_package("@alone"), "@alone");
    assert_eq!(base_package(""), "");
}

#[test]
fn resolves_exact_and_subpath() {
    let pairs = scan_id_name_pairs(BUNDLE_YML);
    assert_eq!(resolve_row("@deepseek-ai/dsh-llm", &pairs).unwrap().0, "llm");
    assert_eq!(
        resolve_row("@deepseek-ai/dsh-tool-subagent/model-selection-settings", &pairs).unwrap().0,
        "subagent-model-selection-settings"
    );
    assert_eq!(
        resolve_row("@deepseek-ai/dsh-tool-subagent", &pairs).unwrap().0,
        "tool-subagent"
    );
    assert!(resolve_row("some-random-pkg", &pairs).is_none());
}

#[test]
fn resolves_by_package_and_by_prefix() {
    let pairs = vec![
        ("sub".to_string(), "pkg/part".to_string()),
        ("whole".to_string(), "other".to_string()),
    ];
    assert_eq!(resolve_row("other/deep", &pairs).unwrap().0, "whole");
    assert_eq!(resolve_row("pkg", &pairs).unwrap(), ("sub".to_string(), "pkg/part".to_string()));
    assert!(resolve_row("pk", &pairs).is_none());
}

// ---- diagnoses ------------------------------------------------------------------------------

#[test]
fn diagnose_skips_core_rows() {
    let pairs = scan_id_name_pairs(BUNDLE_YML);
    let (id, _) = resolve_row("@deepseek-ai/dsh-host-webserver", &pairs).unwrap();
    assert!(CORE_ROW_DENYLIST.contains(&id.as_str()));
    let tail = strings(&["Error: Cannot find module '@deepseek-ai/dsh-host-webserver'"]);
    assert!(diagnose(&tail, &pairs, None).is_empty());
}

#[test]
fn diagnosis_names_the_last_lines_first() {
    let pairs = scan_id_name_pairs(BUNDLE_YML);
    let tail = strings(&[
        "Error: early",
        "at x (/node_modules/@deepseek-ai/cordis-plugin-timer/i.js)",
        "at y (/node_modules/@deepseek-ai/dsh-llm/i.js)",
        "  TypeError: boom  ",
        "at z (/node_modules/mine/i.js)",
        "at y (/node_modules/@deepseek-ai/dsh-llm/j.js)",
    ]);
    let found = diagnose(&tail, &pairs, Some("- id: my-plugin\n  name: mine\n"));
    let ids: Vec<&str> = found.iter().map(|e| e.id.as_str()).collect();
    assert_eq!(ids, vec!["llm", "my-plugin", "timer"]);
    assert_eq!(found[0].module, "@deepseek-ai/dsh-llm");
    assert_eq!(found[0].reason, "TypeError: boom");
}

#[test]
fn diagnosis_names_at_most_three_rows() {
    let pairs: Vec<(String, String)> =
        (0..9).map(|i| (format!("id{}", i), format!("pkg{}", i))).collect();
    let tail: Vec<String> =
        (0..9).map(|i| format!("Cannot find module 'pkg{}'", i)).collect();
    let found = diagnose(&tail, &pairs, None);
    let ids: Vec<&str> = found.iter().map(|e| e.id.as_str()).collect();
    assert_eq!(ids, vec!["id8", "id7", "id6"]);
    assert_eq!(found[0].reason, "failed to load pkg8");
}

#[test]
fn diagnosis_shortens_the_reason_and_skips_bad_ids() {
    let long = format!("Error: {}", "错".repeat(200));
    let tail = vec!["Cannot find module 'p' Cannot find package 'q'".to_string(), long];
    let pairs =
        vec![("two words".to_string(), "p".to_string()), ("good".to_string(), "q".to_string())];
    let found = diagnose(&tail, &pairs, None);
    assert_eq!(found.len(), 1);
    assert_eq!(found[0].id, "good");
    assert_eq!(found[0].reason.chars().count(), 160);
}

// ---- rows that are added --------------------------------------------------------------------

#[test]
fn appends_to_empty_patch() {
    let (_, text, added) = written(append_disable_entries("", &[entry("llm")], 7, "b"));
    assert_eq!(added, vec!["llm"]);
    assert!(text.contains("- id: llm\n  disabled: true"));
    assert!(text.contains("dsh-desktop auto-recovery"));
    let again = append_disable_entries(&text, &[entry("llm")], 8, "b");
    assert!(matches!(again, PatchPlan::Unchanged));
}

#[test]
fn replaces_empty_array_patch() {
    let content = "# comment\n[]\n";
    let (backup, text, added) = written(append_disable_entries(content, &[entry("webserver")], 7, "b"));
    assert!(!backup);
    assert_eq!(added, vec!["webserver"]);
    assert!(text.contains("- id: webserver"));
    assert!(!text.contains("[]"));
}

#[test]
fn appends_after_user_entries() {
    let content = "# user layer\n- id: my-plugin\n  name: 'third-party-pkg'\n  config:\n    foo: 1\n";
    let (backup, text, added) = written(append_disable_entries(content, &[entry("llm")], 7, "b"));
    assert!(!backup);
    assert_eq!(added, vec!["llm"]);
    let user_pos = text.find("- id: my-plugin").unwrap();
    let new_pos = text.find("- id: llm").unwrap();
    assert!(user_pos < new_pos);
    assert!(text.starts_with(content));
}

#[test]
fn backs_up_inline_array() {
    let content = "[{id: a, disabled: true}]\n";
    let place = format!("inline.{}", backup_extension(1234));
    let (backup, text, added) = written(append_disable_entries(content, &[entry("llm")], 1234, &place));
    assert!(backup);
    assert_eq!(added, vec!["llm"]);
    assert_eq!(place, "inline.yml.bak-1234");
    assert!(text.contains(".bak-"));
    assert!(text.contains("- id: llm"));
    assert!(!text.contains("{id: a"));
}

#[test]
fn an_added_row_is_written_in_full() {
    let e = DisableEntry { id: "x".into(), module: "m".into(), reason: "a\nb\tc".into() };
    let (_, text, _) = written(append_disable_entries("- id: y", &[e], 42, "b"));
    assert_eq!(
        text,
        "- id: y\n\n# dsh-desktop auto-recovery (42): 该插件导致启动失败 —— a b c\n- id: x\n  disabled: true\n"
    );
}

#[test]
fn only_fresh_clean_ids_are_added() {
    let entries = vec![entry("y"), entry(""), entry("a b"), entry("new")];
    let (_, text, added) = written(append_disable_entries("- id: y\r", &entries, 1, "b"));
    assert_eq!(added, vec!["new"]);
    assert_eq!(scan_all_ids(&text), vec!["y", "new"]);
    assert!(matches!(append_disable_entries(&text, &entries, 2, "c"), PatchPlan::Unchanged));
}

#[test]
fn an_id_in_quotes_is_not_read_back_as_it_is() {
    let (_, text, _) = written(append_disable_entries("", &[entry("'q'")], 1, "b"));
    assert_eq!(scan_all_ids(&text), vec!["q"]);
}

#[test]
fn comments_stay_on_one_line() {
    assert_eq!(comment_safe("a\r\nb\tc"), "a  b c");
    assert_eq!(comment_safe(&"长".repeat(300)).chars().count(), 120);
}

#[test]
fn safe_mode_only_touches_third_party() {
    let user_text = "- id: my-plugin\n  name: 'cool-plugin'\n- id: override-only\n  config:\n    x: 1\n";
    let bundle_pairs = scan_id_name_pairs(BUNDLE_YML);
    let overlay = safe_mode_overlay(user_text, &bundle_pairs).unwrap();
    assert_eq!(overlay.ids, vec!["my-plugin"]);
    assert!(overlay.text.ends_with("- id: my-plugin\n  disabled: true\n"));
    assert_eq!(scan_all_ids(&overlay.text), vec!["my-plugin"]);
}

#[test]
fn safe_mode_spares_official_plugins() {
    let bundle = vec![("b".to_string(), "bundled".to_string())];
    let user = "- id: a\n  name: '@deepseek-ai/x'\n- id: b\n  name: bundled/part\n- id: c d\n  name: z\n";
    assert!(safe_mode_overlay(user, &bundle).is_none());
    assert!(safe_mode_overlay("", &bundle).is_none());
}

// ---- the profile ----------------------------------------------------------------------------

#[test]
fn parses_real_profile_package_json() {
    let text = r#"{
  "name": "dsh-profile-web",
  "private": true,
  "dependencies": {},
  "dsh": {
    "profile": {
      "bundles": [
        "@deepseek-ai/dsh-base",
        "@deepseek-ai/dsh-web-app"
      ],
      "patchReload": "live"
    }
  }
}"#;
    assert_eq!(
        parse_bundles_json(text),
        vec!["@deepseek-ai/dsh-base".to_string(), "@deepseek-ai/dsh-web-app".to_string()]
    );
    assert!(parse_bundles_json("{\"name\": \"x\"}").is_empty());
    assert!(parse_bundles_json("\"bundles\": []").is_empty());
    assert_eq!(
        parse_bundles_json("\"bundles\": [\"a\"], \"other\": [\"b\", \"c\"]"),
        vec!["a".to_string()]
    );
}

#[test]
fn a_list_of_bundles_may_be_odd() {
    assert_eq!(parse_bundles_json("\"bundles\": [\" a \", \"\", \"b]c\", \"open"), vec!["a", "b]c"]);
    assert!(parse_bundles_json("\"bundles\": 1").is_empty());
}

#[test]
fn known_bundles_stand_in() {
    let known = vec!["@deepseek-ai/dsh-base", "@deepseek-ai/dsh-web-app"];
    assert_eq!(declared_bundles(None), known);
    assert_eq!(declared_bundles(Some("{}")), known);
    assert_eq!(declared_bundles(Some("\"bundles\": [\"x\"]")), vec!["x"]);
    let named = "{\"name\": \"bundles\", \"files\": [\"f\"], \"bundles\" : [\"x\"]}";
    assert_eq!(declared_bundles(Some(named)), vec!["x"]);
    assert_eq!(declared_bundles(Some("{\"name\": \"bundles\", \"files\": [\"f\"]}")), known);
    assert_eq!(declared_bundles(Some("{\"bundles\": 1, \"files\": [\"f\"]}")), known);
}

#[test]
fn paths_start_at_the_home_of_the_service() {
    assert_eq!(dsh_home(Some("/d"), Some("/h")), vec!["/d"]);
    assert_eq!(dsh_home(Some(""), Some("/h")), vec!["/h", ".dsh"]);
    assert_eq!(dsh_home(None, None), vec!["", ".dsh"]);
    let home = strings(&["/h", ".dsh"]);
    assert_eq!(profile_dir(&home), vec!["/h", ".dsh", "profiles", "web"]);
    assert_eq!(user_patch_path(&home).last().unwrap(), "cordis.patch.yml");
    assert_eq!(safe_mode_path(&home).last().unwrap(), "dsh-desktop-safe-mode.yml");
    assert_eq!(package_json_path(&home).last().unwrap(), "package.json");
    let layers = bundle_layer_paths(&home, &strings(&["a", "b"]));
    assert_eq!(layers.len(), 4);
    assert_eq!(
        layers[1],
        vec!["/h", ".dsh", "profiles", "node_modules", "b", "cordis.patch.yml"]
    );
    assert_eq!(
        layers[2],
        vec!["/h", ".dsh", "profiles", "web", "node_modules", "a", "cordis.patch.yml"]
    );
}
