//! Where DevBind keeps its files: the configuration directory (which follows
//! the invoking user under `sudo`) and the installed binary. Reading the
//! environment and probing the file system happen outside; these functions
//! turn what was found into paths.
use vstd::prelude::*;
use crate::text::{concat, ends_with, join_path, path_join, push_str, to_owned};

verus! {

/// The directory that holds per-user configuration: `/home/<user>/.config`
/// for the user behind `sudo`, else the platform's configuration directory,
/// else `~/.config`.
pub open spec fn config_base(sudo_user: Option<Seq<char>>, platform_dir: Option<Seq<char>>) -> Seq<char> {
    match sudo_user {
        Some(u) => "/home/"@ + u + "/.config"@,
        None => match platform_dir {
            Some(d) => d,
            None => "~/.config"@,
        },
    }
}

/// `<base>/devbind`.
pub open spec fn config_dir_of(sudo_user: Option<Seq<char>>, platform_dir: Option<Seq<char>>) -> Seq<char> {
    path_join(config_base(sudo_user, platform_dir), "devbind"@)
}

/// `<base>/devbind/config.toml`.
pub open spec fn config_path_of(sudo_user: Option<Seq<char>>, platform_dir: Option<Seq<char>>) -> Seq<char> {
    path_join(config_dir_of(sudo_user, platform_dir), "config.toml"@)
}

/// The text of an optional string slice.
pub open spec fn opt_view(o: Option<&str>) -> Option<Seq<char>> {
    match o {
        Some(s) => Some(s@),
        None => None,
    }
}

fn config_base_path(sudo_user: Option<&str>, platform_dir: Option<&str>) -> (b: String)
    ensures
        b@ == config_base(opt_view(sudo_user), opt_view(platform_dir)),
{
    match sudo_user {
        Some(u) => {
            let mut b = concat("/home/", u);
            push_str(&mut b, "/.config");
            b
        },
        None => match platform_dir {
            Some(d) => to_owned(d),
            None => to_owned("~/.config"),
        },
    }
}

/// The DevBind configuration directory, given `$SUDO_USER` (when set) and
/// the platform's configuration directory (when known).
pub fn get_config_dir(sudo_user: Option<&str>, platform_dir: Option<&str>) -> (p: String)
    ensures
        p@ == config_dir_of(opt_view(sudo_user), opt_view(platform_dir)),
{
    let base = config_base_path(sudo_user, platform_dir);
    join_path(base.as_str(), "devbind")
}

/// The path of `config.toml`, given the same inputs as [`get_config_dir`].
pub fn get_config_path(sudo_user: Option<&str>, platform_dir: Option<&str>) -> (p: String)
    ensures
        p@ == config_path_of(opt_view(sudo_user), opt_view(platform_dir)),
{
    let dir = get_config_dir(sudo_user, platform_dir);
    join_path(dir.as_str(), "config.toml")
}

/// The configuration file sits directly in the configuration directory, which
/// is named `devbind`, so the file's path always ends in `devbind/config.toml`.
pub proof fn law_config_path_layout(sudo_user: Option<Seq<char>>, platform_dir: Option<Seq<char>>)
    ensures
        config_path_of(sudo_user, platform_dir) == config_dir_of(sudo_user, platform_dir) + "/config.toml"@,
        ends_with(config_dir_of(sudo_user, platform_dir), "devbind"@),
        ends_with(config_path_of(sudo_user, platform_dir), "devbind/config.toml"@),
{
    let base = config_base(sudo_user, platform_dir);
    let dir = config_dir_of(sudo_user, platform_dir);
    reveal_strlit("devbind");
    reveal_strlit("config.toml");
    reveal_strlit("/config.toml");
    reveal_strlit("devbind/config.toml");
    if base.len() == 0 {
        assert(dir =~= "devbind"@);
    } else if base.last() == '/' {
        assert(dir =~= base + "devbind"@);
    } else {
        assert(dir =~= base + seq!['/'] + "devbind"@);
    }
    assert(dir.len() >= 7);
    assert(dir.subrange(dir.len() - 7, dir.len() as int) =~= "devbind"@);
    assert(dir.last() == 'd');
    assert(config_path_of(sudo_user, platform_dir) =~= dir + seq!['/'] + "config.toml"@);
    assert(dir + seq!['/'] + "config.toml"@ =~= dir + "/config.toml"@);
    let p = dir + "/config.toml"@;
    assert(p.subrange(p.len() - 19, p.len() as int) =~= "devbind/config.toml"@);
}

/// Where a per-user install puts the binary: `<home>/.local/bin/devbind`.
pub open spec fn local_binary_path(home: Seq<char>) -> Seq<char> {
    path_join(home, ".local/bin/devbind"@)
}

/// The per-user install location of the binary under `home`.
pub fn local_devbind_path(home: &str) -> (p: String)
    ensures
        p@ == local_binary_path(home@),
{
    join_path(home, ".local/bin/devbind")
}

/// The binary to launch: the per-user install when there is a home directory
/// and the file exists there (`installed_locally`), else `devbind` from `PATH`.
pub fn which_devbind(home: Option<&str>, installed_locally: bool) -> (b: String)
    ensures
        b@ == (match home {
            Some(h) => if installed_locally { local_binary_path(h@) } else { "devbind"@ },
            None => "devbind"@,
        }),
{
    match home {
        Some(h) => if installed_locally {
            local_devbind_path(h)
        } else {
            to_owned("devbind")
        },
        None => to_owned("devbind"),
    }
}

} // verus!
