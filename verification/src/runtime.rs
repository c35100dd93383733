//! Start-up checks on the runtime environment and the admin root token.
use vstd::prelude::*;
use vstd::string::*;
use crate::text::{
    ascii_lower, contains, has_prefix, occurs_in, parse_u64, parsed_u64, strip_prefix,
    to_ascii_lower, trim, trimmed,
};

verus! {

/// The admin root token: nothing when blank; for `env://VAR` the variable's
/// value when set and non-empty (`env_value` is that value as read from the
/// environment); otherwise the trimmed text.
pub open spec fn admin_token_of(root: Seq<char>, env_value: Option<Seq<char>>) -> Result<Option<Seq<char>>, Seq<char>> {
    let raw = trimmed(root);
    if raw.len() == 0 {
        Ok(None)
    } else if has_prefix(raw, "env://"@) {
        if raw.len() == 6 {
            Err("admin.root_token env reference is missing a var name"@)
        } else {
            match env_value {
                Some(v) => if v.len() > 0 {
                    Ok(Some(v))
                } else {
                    Ok(None)
                },
                None => Ok(None),
            }
        }
    } else {
        Ok(Some(raw))
    }
}

/// The variable an `env://` root token names, if it names one.
pub fn admin_token_var(root_token: &str) -> (r: Option<String>)
    ensures
        ({
            let raw = trimmed(root_token@);
            match r {
                Some(v) => has_prefix(raw, "env://"@) && v@ == raw.skip(6) && v@.len() > 0,
                None => !has_prefix(raw, "env://"@) || raw.len() == 6,
            }
        }),
{
    proof {
        reveal_strlit("env://");
    }
    let raw = trim(root_token);
    match strip_prefix(raw.as_str(), "env://") {
        Some(var) => if var.as_str().unicode_len() == 0 {
            None
        } else {
            Some(var)
        },
        None => None,
    }
}

pub fn read_admin_token(root_token: &str, env_value: Option<String>) -> (r: Result<Option<String>, String>)
    ensures
        match admin_token_of(
            root_token@,
            match env_value {
                Some(v) => Some(v@),
                None => None,
            },
        ) {
            Ok(Some(t)) => r matches Ok(Some(s)) && s@ == t,
            Ok(None) => r matches Ok(None),
            Err(m) => r matches Err(e) && e@ == m,
        },
{
    proof {
        reveal_strlit("env://");
    }
    let raw = trim(root_token);
    if raw.as_str().unicode_len() == 0 {
        return Ok(None);
    }
    match strip_prefix(raw.as_str(), "env://") {
        Some(var) => {
            if var.as_str().unicode_len() == 0 {
                return Err(String::from_str("admin.root_token env reference is missing a var name"));
            }
            match env_value {
                Some(v) => if v.as_str().unicode_len() > 0 {
                    Ok(Some(v))
                } else {
                    Ok(None)
                },
                None => Ok(None),
            }
        },
        None => Ok(Some(raw)),
    }
}

/// `GATEWAY_WORKERS` as a `u32`, 1 when unset or not a `u32`.
pub open spec fn workers_of(text: Option<Seq<char>>) -> nat {
    match text {
        Some(t) => match parsed_u64(t) {
            Some(n) => if n <= u32::MAX {
                n as nat
            } else {
                1
            },
            None => 1,
        },
        None => 1,
    }
}

/// The lite (SQLite) profile runs a single worker.
pub fn check_workers(is_lite: bool, workers: Option<&str>) -> (r: Result<(), String>)
    ensures
        is_lite && workers_of(
            match workers {
                Some(w) => Some(w@),
                None => None,
            },
        ) > 1 ==> (r matches Err(m) && m@
            == "GATEWAY_WORKERS>1 is incompatible with storage.profile=lite; switch to profile=standard or run a single worker"@),
        !(is_lite && workers_of(
            match workers {
                Some(w) => Some(w@),
                None => None,
            },
        ) > 1) ==> r is Ok,
{
    if !is_lite {
        return Ok(());
    }
    let n: u64 = match workers {
        Some(w) => match parse_u64(w) {
            Some(n) => if n <= 4294967295 {
                n
            } else {
                1
            },
            None => 1,
        },
        None => 1,
    };
    if n > 1 {
        Err(
            String::from_str(
                "GATEWAY_WORKERS>1 is incompatible with storage.profile=lite; switch to profile=standard or run a single worker",
            ),
        )
    } else {
        Ok(())
    }
}

/// A canonical path that looks like a network mount: it holds `/nfs/` or
/// `/smb/`, in any case.
pub open spec fn networked_path(canonical: Seq<char>) -> bool {
    occurs_in(ascii_lower(canonical), "/nfs/"@) || occurs_in(ascii_lower(canonical), "/smb/"@)
}

pub fn path_looks_networked(canonical: &str) -> (r: bool)
    ensures
        r == networked_path(canonical@),
{
    let l = to_ascii_lower(canonical);
    contains(l.as_str(), "/nfs/") || contains(l.as_str(), "/smb/")
}

} // verus!
