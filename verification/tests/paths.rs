use confium::paths::candidate_paths;

#[test]
fn bare_name_gets_extension_and_prefix_candidates() {
    let c = candidate_paths(&"plugin".to_string(), &"so".to_string(), &"lib".to_string());
    assert_eq!(c, vec!["plugin", "plugin.so", "libplugin.so"]);
}

#[test]
fn directory_part_is_kept_and_prefix_goes_on_the_filename() {
    let c = candidate_paths(&"/a/b/plugin".to_string(), &"so".to_string(), &"lib".to_string());
    assert_eq!(c, vec!["/a/b/plugin", "/a/b/plugin.so", "/a/b/libplugin.so"]);
}

#[test]
fn a_path_with_the_native_extension_is_taken_as_given() {
    let c = candidate_paths(&"/a/plugin.so".to_string(), &"so".to_string(), &"lib".to_string());
    assert_eq!(c, vec!["/a/plugin.so"]);
}

#[test]
fn a_foreign_extension_still_gets_the_native_one_appended() {
    let c = candidate_paths(&"plugin.dylib".to_string(), &"so".to_string(), &"lib".to_string());
    assert_eq!(c, vec!["plugin.dylib", "plugin.dylib.so", "libplugin.dylib.so"]);
}

#[test]
fn platform_prefix_is_what_the_caller_passes() {
    let c = candidate_paths(&"tool".to_string(), &"dll".to_string(), &"".to_string());
    assert_eq!(c, vec!["tool", "tool.dll", "tool.dll"]);
}
