//! Settings and URL handling for the remote backup store. The transfer
//! itself is an external collaborator; the library holds the settings shape
//! and the normalization of the remote base URL.

use vstd::prelude::*;

verus! {

/// Connection settings for the remote backup store.
#[derive(Debug, Clone)]
pub struct WebDavSettings {
    pub enabled: bool,
    pub url: String,
    pub username: String,
    pub password: String,
    pub base_path: String,
    pub auto_backup: bool,
    pub max_backups: Option<u32>,
    pub simple_mode: bool,
}

/// `s` without its trailing slashes.
pub open spec fn trim_end_slashes(s: Seq<char>) -> Seq<char>
    decreases s.len(),
{
    if s.len() > 0 && s.last() == '/' {
        trim_end_slashes(s.drop_last())
    } else {
        s
    }
}

/// `s` without its leading slashes.
pub open spec fn trim_start_slashes(s: Seq<char>) -> Seq<char>
    decreases s.len(),
{
    if s.len() > 0 && s.first() == '/' {
        trim_start_slashes(s.drop_first())
    } else {
        s
    }
}

/// The normalized remote base URL: the server address and the storage path
/// joined by exactly one slash, ending in a slash.
pub open spec fn spec_normalize_base(base: Seq<char>, path: Seq<char>) -> Seq<char> {
    let joined = trim_end_slashes(base) + seq!['/'] + trim_start_slashes(path);
    if joined.last() == '/' {
        joined
    } else {
        joined + seq!['/']
    }
}

/// Joins the server address and the storage path into the remote base URL,
/// with exactly one slash between them and a trailing slash at the end.
pub fn normalize_base(base: &str, path: &str) -> (r: String)
    ensures
        r@ == spec_normalize_base(base@, path@),
{
    proof {
        reveal_strlit("/");
        assert("/"@ =~= seq!['/']);
    }
    let blen = base.unicode_len();
    let mut e: usize = blen;
    proof {
        assert(base@.take(blen as int) =~= base@);
    }
    while e > 0 && base.get_char(e - 1) == '/'
        invariant
            e <= blen,
            blen == base@.len(),
            trim_end_slashes(base@) == trim_end_slashes(base@.take(e as int)),
        decreases e,
    {
        proof {
            assert(base@.take(e as int).last() == base@[e - 1]);
            assert(base@.take(e as int).drop_last() =~= base@.take(e - 1));
        }
        e = e - 1;
    }
    proof {
        if e > 0 {
            assert(base@.take(e as int).last() == base@[e - 1]);
        }
        assert(trim_end_slashes(base@) == base@.take(e as int));
    }
    let plen = path.unicode_len();
    let mut s: usize = 0;
    proof {
        assert(path@.skip(0) =~= path@);
    }
    while s < plen && path.get_char(s) == '/'
        invariant
            s <= plen,
            plen == path@.len(),
            trim_start_slashes(path@) == trim_start_slashes(path@.skip(s as int)),
        decreases plen - s,
    {
        proof {
            assert(path@.skip(s as int).first() == path@[s as int]);
            assert(path@.skip(s as int).drop_first() =~= path@.skip(s + 1));
        }
        s = s + 1;
    }
    proof {
        if s < plen {
            assert(path@.skip(s as int).first() == path@[s as int]);
        }
        assert(trim_start_slashes(path@) == path@.skip(s as int));
    }
    let mut out = String::from_str(base.substring_char(0, e));
    out.append("/");
    out.append(path.substring_char(s, plen));
    proof {
        assert(out@ =~= trim_end_slashes(base@) + seq!['/'] + trim_start_slashes(path@));
    }
    let olen = out.as_str().unicode_len();
    let last = out.as_str().get_char(olen - 1);
    if last != '/' {
        out.append("/");
        proof {
            assert(out@ =~= spec_normalize_base(base@, path@));
        }
    }
    out
}

} // verus!
