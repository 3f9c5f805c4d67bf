use fhsenv::envprep::{join_with, ld_so_conf_content, prepare_env, prepend_entries, EnvSnapshot};

fn snapshot(path: &str) -> EnvSnapshot {
    EnvSnapshot {
        path: path.to_string(),
        pkg_config_path: String::new(),
        ld_library_path: String::new(),
        xdg_data_dirs: String::new(),
        aclocal_path: String::new(),
        locale_archive: String::new(),
    }
}

#[test]
fn ld_so_conf_has_exactly_the_canonical_lines() {
    let expected = "/lib\n\
                    /lib/x86_64-linux-gnu\n\
                    /lib64\n\
                    /usr/lib\n\
                    /usr/lib/x86_64-linux-gnu\n\
                    /usr/lib64\n\
                    /lib/i386-linux-gnu\n\
                    /lib32\n\
                    /usr/lib/i386-linux-gnu\n\
                    /usr/lib32\n\
                    /run/opengl-driver/lib\n\
                    /run/opengl-driver-32/lib";
    let content = ld_so_conf_content();
    assert_eq!(content.as_str(), expected);
    assert_eq!(content.lines().count(), 12);
    assert!(!content.ends_with('\n'));
}

#[test]
fn path_prepend_keeps_inherited_value() {
    let prepared = prepare_env(&snapshot("/opt/bin"));
    assert_eq!(
        prepared.path.as_str(),
        "/run/wrappers/bin:/usr/bin:/usr/sbin:/usr/local/bin:/usr/local/sbin:/bin:/sbin:/opt/bin"
    );
}

#[test]
fn empty_variable_gets_no_separator() {
    let prepared = prepare_env(&snapshot(""));
    assert_eq!(
        prepared.path.as_str(),
        "/run/wrappers/bin:/usr/bin:/usr/sbin:/usr/local/bin:/usr/local/sbin:/bin:/sbin"
    );
    assert_eq!(prepared.pkg_config_path.as_str(), "/usr/lib/pkgconfig");
    assert_eq!(
        prepared.ld_library_path.as_str(),
        "/run/opengl-driver/lib:/run/opengl-driver-32/lib"
    );
    assert_eq!(
        prepared.xdg_data_dirs.as_str(),
        "/run/opengl-driver/share:/run/opengl-driver-32/share:/usr/local/share:/usr/share"
    );
    assert_eq!(prepared.aclocal_path.as_str(), "/usr/share/aclocal");
}

#[test]
fn locale_archive_is_overwritten() {
    let mut env = snapshot("");
    env.locale_archive = "/somewhere/else".to_string();
    let prepared = prepare_env(&env);
    assert_eq!(prepared.locale_archive.as_str(), "/usr/lib/locale/locale-archive");
}

#[test]
fn prepend_twice_duplicates_the_prefix() {
    // the prepend is intentionally not deduplicating
    let additions = vec!["/a".to_string(), "/b".to_string()];
    let once = prepend_entries(&additions, "/opt");
    let twice = prepend_entries(&additions, once.as_str());
    assert_eq!(once.as_str(), "/a:/b:/opt");
    assert_eq!(twice.as_str(), "/a:/b:/a:/b:/opt");
}

#[test]
fn join_with_separator() {
    let parts = vec!["x".to_string(), "y".to_string(), "z".to_string()];
    assert_eq!(join_with(&parts, ":").as_str(), "x:y:z");
    assert_eq!(join_with(&vec![], ":").as_str(), "");
    assert_eq!(join_with(&vec!["solo".to_string()], ":").as_str(), "solo");
}
