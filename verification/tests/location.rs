use s3_viewer::settings::location::{
    expand_home_dir, get_settings_file_name, DEFAULT_SETTINGS_PATH, SETTINGS_PATH_ENV_VARIABLE,
};

#[test]
fn leading_tilde_is_the_home_dir() {
    assert_eq!(
        expand_home_dir("~/.s3-viewer", Some("/home/user")),
        "/home/user/.s3-viewer"
    );
    assert_eq!(expand_home_dir("~", Some("/home/user")), "/home/user");
}

#[test]
fn trailing_slash_of_home_is_not_doubled() {
    assert_eq!(expand_home_dir("~/a.yaml", Some("/root/")), "/root/a.yaml");
    assert_eq!(expand_home_dir("~/a.yaml", Some("/")), "/a.yaml");
}

#[test]
fn tilde_inside_the_path_is_kept() {
    assert_eq!(
        expand_home_dir("/data/s3~viewer/settings.yaml", Some("/home/user")),
        "/data/s3~viewer/settings.yaml"
    );
    assert_eq!(
        expand_home_dir("~/s3~viewer/~settings.yaml", Some("/home/user")),
        "/home/user/s3~viewer/~settings.yaml"
    );
}

#[test]
fn tilde_user_and_relative_paths_are_kept() {
    assert_eq!(
        expand_home_dir("~other/settings.yaml", Some("/home/user")),
        "~other/settings.yaml"
    );
    assert_eq!(
        expand_home_dir("settings.yaml", Some("/home/user")),
        "settings.yaml"
    );
}

#[test]
fn unknown_home_keeps_the_path() {
    assert_eq!(expand_home_dir("~/.s3-viewer", None), "~/.s3-viewer");
}

#[test]
fn settings_file_comes_from_the_variable_or_the_default() {
    assert_eq!(SETTINGS_PATH_ENV_VARIABLE, "S3_VIEWER_SETTINGS");
    assert_eq!(DEFAULT_SETTINGS_PATH, "~/.s3-viewer");
    assert_eq!(
        get_settings_file_name(None, Some("/home/u")),
        "/home/u/.s3-viewer"
    );
    assert_eq!(
        get_settings_file_name(Some("  "), Some("/home/u")),
        "/home/u/.s3-viewer"
    );
    assert_eq!(
        get_settings_file_name(Some(" ~/s.yaml "), Some("/home/u/")),
        "/home/u/s.yaml"
    );
    assert_eq!(
        get_settings_file_name(Some("/etc/s.yaml"), None),
        "/etc/s.yaml"
    );
    assert_eq!(get_settings_file_name(None, None), "~/.s3-viewer");
}
