use linux_mod_manager::modding::cyberpunk::{clean_mod_name, expand_camel};

#[test]
fn clean_name_strips_sort_prefix_and_extension() {
    assert_eq!(clean_mod_name("###-LUTSwitcher-Addon-Preem.archive"), "LUT Switcher Addon Preem");
}

#[test]
fn clean_name_strips_archive_xl() {
    assert_eq!(clean_mod_name("EquipmentEx.archive.xl"), "Equipment Ex");
}

#[test]
fn clean_name_strips_xl() {
    assert_eq!(clean_mod_name("PhotoModeScope.xl"), "Photo Mode Scope");
}

#[test]
fn clean_name_splits_upper_run() {
    assert_eq!(clean_mod_name("ArchiveXL"), "Archive XL");
}

#[test]
fn clean_name_strips_digit_prefix() {
    assert_eq!(clean_mod_name("123-CoolMod"), "Cool Mod");
    assert_eq!(clean_mod_name("###-LUTSwitcher-Core"), "LUT Switcher Core");
    assert_eq!(clean_mod_name("@!1-Thing"), "Thing");
}

#[test]
fn clean_name_keeps_word_prefix() {
    assert_eq!(clean_mod_name("abc-def"), "abc def");
}

#[test]
fn clean_name_ignores_disabled_suffix() {
    assert_eq!(clean_mod_name("EquipmentEx.archive.xl.disabled"), "Equipment Ex");
    assert_eq!(clean_mod_name("CoolMod.disabled"), clean_mod_name("CoolMod"));
}

#[test]
fn clean_name_splits_on_underscore_and_dash() {
    assert_eq!(clean_mod_name("my_cool-mod.yaml"), "my cool mod");
    assert_eq!(clean_mod_name("a__b"), "a b");
}

#[test]
fn clean_name_tweak_and_yml() {
    assert_eq!(clean_mod_name("FastTravel.tweak"), "Fast Travel");
    assert_eq!(clean_mod_name("list.yml"), "list");
}

#[test]
fn clean_name_leading_dash_is_not_a_prefix() {
    assert_eq!(clean_mod_name("-leading"), "leading");
}

#[test]
fn clean_name_digits() {
    assert_eq!(clean_mod_name("RED4ext"), "RED 4 ext");
    assert_eq!(clean_mod_name("Nova4"), "Nova 4");
}

#[test]
fn clean_name_empty() {
    assert_eq!(clean_mod_name(""), "");
    assert_eq!(clean_mod_name(".archive"), "");
}

#[test]
fn expand_camel_examples() {
    let mut out: Vec<String> = Vec::new();
    expand_camel("LUTSwitcher", &mut out);
    assert_eq!(out, vec!["LUT".to_string(), "Switcher".to_string()]);

    let mut out: Vec<String> = Vec::new();
    expand_camel("Nova4", &mut out);
    assert_eq!(out, vec!["Nova".to_string(), "4".to_string()]);

    let mut out: Vec<String> = Vec::new();
    expand_camel("RED4ext", &mut out);
    assert_eq!(out, vec!["RED".to_string(), "4".to_string(), "ext".to_string()]);

    let mut out: Vec<String> = Vec::new();
    expand_camel("Addon", &mut out);
    assert_eq!(out, vec!["Addon".to_string()]);
}

#[test]
fn expand_camel_appends() {
    let mut out: Vec<String> = vec!["first".to_string()];
    expand_camel("fooBar", &mut out);
    assert_eq!(out, vec!["first".to_string(), "foo".to_string(), "Bar".to_string()]);
}

#[test]
fn expand_camel_lower_digit_upper() {
    let mut out: Vec<String> = Vec::new();
    expand_camel("v2Bar", &mut out);
    assert_eq!(out, vec!["v".to_string(), "2".to_string(), "Bar".to_string()]);
}

#[test]
fn expand_camel_empty_adds_nothing() {
    let mut out: Vec<String> = Vec::new();
    expand_camel("", &mut out);
    assert!(out.is_empty());
}
