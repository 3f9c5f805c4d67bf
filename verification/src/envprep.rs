//! Environment preparation: the dynamic-linker search-path configuration
//! written into the new root's `/etc`, and the prepend-only updates applied
//! to the inherited environment variables after the pivot.

use vstd::prelude::*;

verus! {

/// Joined view of a list of pieces with a separator between neighbours.
pub open spec fn spec_join(parts: Seq<Seq<char>>, sep: Seq<char>) -> Seq<char>
    decreases parts.len(),
{
    if parts.len() == 0 {
        Seq::empty()
    } else if parts.len() == 1 {
        parts[0]
    } else {
        parts[0] + sep + spec_join(parts.drop_first(), sep)
    }
}

proof fn lemma_join_push(parts: Seq<Seq<char>>, sep: Seq<char>, last: Seq<char>)
    ensures
        spec_join(parts.push(last), sep) == if parts.len() == 0 {
            last
        } else {
            (spec_join(parts, sep) + sep + last)
        },
    decreases parts.len(),
{
    if parts.len() == 0 {
        assert(parts.push(last) =~= seq![last]);
        assert(spec_join(seq![last], sep) == last);
    } else if parts.len() == 1 {
        assert(parts.push(last).drop_first() =~= seq![last]);
        assert(spec_join(seq![last], sep) == last);
        assert(spec_join(parts.push(last), sep) == parts[0] + sep + last);
        assert(spec_join(parts, sep) == parts[0]);
    } else {
        assert(parts.push(last).drop_first() =~= parts.drop_first().push(last));
        lemma_join_push(parts.drop_first(), sep, last);
        assert(parts[0] + sep + (spec_join(parts.drop_first(), sep) + sep + last) =~= (parts[0]
            + sep + spec_join(parts.drop_first(), sep)) + sep + last);
    }
}

/// Joins the parts with the separator, no leading or trailing separator.
pub fn join_with(parts: &Vec<String>, sep: &str) -> (r: String)
    ensures
        r@ == spec_join(parts@.map_values(|p: String| p@), sep@),
{
    let ghost views = parts@.map_values(|p: String| p@);
    let mut r = String::new();
    let mut i: usize = 0;
    while i < parts.len()
        invariant
            i <= parts.len(),
            views == parts@.map_values(|p: String| p@),
            r@ == spec_join(views.subrange(0, i as int), sep@),
        decreases parts.len() - i,
    {
        if i > 0 {
            r.append(sep);
        }
        r.append(parts[i].as_str());
        proof {
            assert(views.subrange(0, i + 1 as int) =~= views.subrange(0, i as int).push(
                views[i as int],
            ));
            lemma_join_push(views.subrange(0, i as int), sep@, views[i as int]);
        }
        i = i + 1;
    }
    proof {
        assert(views.subrange(0, parts@.len() as int) =~= views);
    }
    r
}

/// The prepend rule for environment variables: an unset or empty variable
/// takes the joined additions alone; otherwise the joined additions come
/// first, then a colon, then the old value. Nothing is deduplicated.
pub open spec fn spec_prepend(additions: Seq<char>, old_value: Seq<char>) -> Seq<char> {
    if old_value.len() == 0 {
        additions
    } else {
        additions + seq![':'] + old_value
    }
}

/// The prepend is not deduplicating: applying it a second time with the same
/// additions simply stacks the same prefix once more in front of the first
/// result. This duplication is intentional.
pub proof fn lemma_prepend_not_deduplicating(additions: Seq<char>, old_value: Seq<char>)
    requires
        additions.len() > 0,
    ensures
        spec_prepend(additions, spec_prepend(additions, old_value)) == additions + seq![':']
            + spec_prepend(additions, old_value),
        old_value.len() == 0 ==> spec_prepend(additions, spec_prepend(additions, old_value))
            == additions + seq![':'] + additions,
{
    assert(spec_prepend(additions, old_value).len() > 0);
}

/// Prepends the additions, colon-joined, to the old value of an environment
/// variable, per the prepend rule.
pub fn prepend_entries(additions: &Vec<String>, old_value: &str) -> (r: String)
    ensures
        r@ == spec_prepend(
            spec_join(additions@.map_values(|p: String| p@), seq![':']),
            old_value@,
        ),
{
    proof {
        reveal_strlit(":");
        assert(":"@ =~= seq![':']);
    }
    let mut r = join_with(additions, ":");
    if !old_value.is_empty() {
        r.append(":");
        r.append(old_value);
    }
    r
}

/// The dynamic-linker search directories, in the order they are written to
/// the new root's `/etc/ld.so.conf`.
pub open spec fn ld_so_conf_entries() -> Seq<Seq<char>> {
    seq![
        "/lib"@,
        "/lib/x86_64-linux-gnu"@,
        "/lib64"@,
        "/usr/lib"@,
        "/usr/lib/x86_64-linux-gnu"@,
        "/usr/lib64"@,
        "/lib/i386-linux-gnu"@,
        "/lib32"@,
        "/usr/lib/i386-linux-gnu"@,
        "/usr/lib32"@,
        "/run/opengl-driver/lib"@,
        "/run/opengl-driver-32/lib"@,
    ]
}

/// The exact contents of the `ld.so.conf` written into the new root: the
/// search directories, one per line, newline-separated, no trailing newline.
pub fn ld_so_conf_content() -> (r: String)
    ensures
        r@ == spec_join(ld_so_conf_entries(), seq!['\n']),
{
    proof {
        reveal_strlit("\n");
        assert("\n"@ =~= seq!['\n']);
    }
    let mut v: Vec<String> = Vec::new();
    v.push("/lib".to_owned());
    v.push("/lib/x86_64-linux-gnu".to_owned());
    v.push("/lib64".to_owned());
    v.push("/usr/lib".to_owned());
    v.push("/usr/lib/x86_64-linux-gnu".to_owned());
    v.push("/usr/lib64".to_owned());
    v.push("/lib/i386-linux-gnu".to_owned());
    v.push("/lib32".to_owned());
    v.push("/usr/lib/i386-linux-gnu".to_owned());
    v.push("/usr/lib32".to_owned());
    v.push("/run/opengl-driver/lib".to_owned());
    v.push("/run/opengl-driver-32/lib".to_owned());
    assert(v@.map_values(|p: String| p@) =~= ld_so_conf_entries());
    join_with(&v, "\n")
}

/// Directories prepended to `PATH`, in order.
pub open spec fn path_entries() -> Seq<Seq<char>> {
    seq![
        "/run/wrappers/bin"@,
        "/usr/bin"@,
        "/usr/sbin"@,
        "/usr/local/bin"@,
        "/usr/local/sbin"@,
        "/bin"@,
        "/sbin"@,
    ]
}

/// Directories prepended to `PKG_CONFIG_PATH`, in order.
pub open spec fn pkg_config_path_entries() -> Seq<Seq<char>> {
    seq!["/usr/lib/pkgconfig"@]
}

/// Directories prepended to `LD_LIBRARY_PATH`, in order.
pub open spec fn ld_library_path_entries() -> Seq<Seq<char>> {
    seq!["/run/opengl-driver/lib"@, "/run/opengl-driver-32/lib"@]
}

/// Directories prepended to `XDG_DATA_DIRS`, in order.
pub open spec fn xdg_data_dirs_entries() -> Seq<Seq<char>> {
    seq![
        "/run/opengl-driver/share"@,
        "/run/opengl-driver-32/share"@,
        "/usr/local/share"@,
        "/usr/share"@,
    ]
}

/// Directories prepended to `ACLOCAL_PATH`, in order.
pub open spec fn aclocal_path_entries() -> Seq<Seq<char>> {
    seq!["/usr/share/aclocal"@]
}

/// The value `LOCALE_ARCHIVE` is set to, replacing any inherited value.
pub open spec fn locale_archive_value() -> Seq<char> {
    "/usr/lib/locale/locale-archive"@
}

/// The environment variables the preparer touches, as plain values: the
/// inherited values on the way in, the prepared values on the way out.
/// An unset variable is carried as the empty string.
pub struct EnvSnapshot {
    pub path: String,
    pub pkg_config_path: String,
    pub ld_library_path: String,
    pub xdg_data_dirs: String,
    pub aclocal_path: String,
    pub locale_archive: String,
}

/// Computes the prepared environment from the inherited one: each search
/// variable gets its system directories prepended (never replaced), and
/// `LOCALE_ARCHIVE` is overwritten.
pub fn prepare_env(env: &EnvSnapshot) -> (r: EnvSnapshot)
    ensures
        r.path@ == spec_prepend(spec_join(path_entries(), seq![':']), env.path@),
        r.pkg_config_path@ == spec_prepend(
            spec_join(pkg_config_path_entries(), seq![':']),
            env.pkg_config_path@,
        ),
        r.ld_library_path@ == spec_prepend(
            spec_join(ld_library_path_entries(), seq![':']),
            env.ld_library_path@,
        ),
        r.xdg_data_dirs@ == spec_prepend(
            spec_join(xdg_data_dirs_entries(), seq![':']),
            env.xdg_data_dirs@,
        ),
        r.aclocal_path@ == spec_prepend(
            spec_join(aclocal_path_entries(), seq![':']),
            env.aclocal_path@,
        ),
        r.locale_archive@ == locale_archive_value(),
{
    let mut path_adds: Vec<String> = Vec::new();
    path_adds.push("/run/wrappers/bin".to_owned());
    path_adds.push("/usr/bin".to_owned());
    path_adds.push("/usr/sbin".to_owned());
    path_adds.push("/usr/local/bin".to_owned());
    path_adds.push("/usr/local/sbin".to_owned());
    path_adds.push("/bin".to_owned());
    path_adds.push("/sbin".to_owned());
    assert(path_adds@.map_values(|p: String| p@) =~= path_entries());

    let mut pkg_adds: Vec<String> = Vec::new();
    pkg_adds.push("/usr/lib/pkgconfig".to_owned());
    assert(pkg_adds@.map_values(|p: String| p@) =~= pkg_config_path_entries());

    let mut ld_adds: Vec<String> = Vec::new();
    ld_adds.push("/run/opengl-driver/lib".to_owned());
    ld_adds.push("/run/opengl-driver-32/lib".to_owned());
    assert(ld_adds@.map_values(|p: String| p@) =~= ld_library_path_entries());

    let mut xdg_adds: Vec<String> = Vec::new();
    xdg_adds.push("/run/opengl-driver/share".to_owned());
    xdg_adds.push("/run/opengl-driver-32/share".to_owned());
    xdg_adds.push("/usr/local/share".to_owned());
    xdg_adds.push("/usr/share".to_owned());
    assert(xdg_adds@.map_values(|p: String| p@) =~= xdg_data_dirs_entries());

    let mut aclocal_adds: Vec<String> = Vec::new();
    aclocal_adds.push("/usr/share/aclocal".to_owned());
    assert(aclocal_adds@.map_values(|p: String| p@) =~= aclocal_path_entries());

    EnvSnapshot {
        path: prepend_entries(&path_adds, env.path.as_str()),
        pkg_config_path: prepend_entries(&pkg_adds, env.pkg_config_path.as_str()),
        ld_library_path: prepend_entries(&ld_adds, env.ld_library_path.as_str()),
        xdg_data_dirs: prepend_entries(&xdg_adds, env.xdg_data_dirs.as_str()),
        aclocal_path: prepend_entries(&aclocal_adds, env.aclocal_path.as_str()),
        locale_archive: "/usr/lib/locale/locale-archive".to_owned(),
    }
}

} // verus!
