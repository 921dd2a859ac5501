//! Pure pieces of the token-validation path: the JWKS key lookup and the
//! display-name fallback used by every authenticated endpoint.

use vstd::prelude::*;

use vstd::string::StringExecFns;

verus! {

/// One RSA key of a JWKS document, reduced to the fields the lookup reads.
pub struct Jwk {
    pub kid: String,
    pub n: String,
    pub e: String,
}

/// Index of the first key with the wanted id, scanning from `k`.
pub open spec fn find_jwk_spec(keys: Seq<Jwk>, kid: Seq<char>, k: int) -> Option<int>
    decreases keys.len() - k,
{
    if k < 0 || k >= keys.len() {
        Option::None
    } else if keys[k].kid@ == kid {
        Option::Some(k)
    } else {
        find_jwk_spec(keys, kid, k + 1)
    }
}

/// The first key of the set carrying the wanted key id, if any.
pub fn find_jwk<'a>(keys: &'a Vec<Jwk>, kid: &String) -> (r: Option<&'a Jwk>)
    ensures
        (r is Some) <==> (find_jwk_spec(keys@, kid@, 0) is Some),
        (r matches Option::Some(key) ==> {
            &&& find_jwk_spec(keys@, kid@, 0) is Some
            &&& *key == keys@[find_jwk_spec(keys@, kid@, 0).unwrap()]
        }),
{
    let mut i: usize = 0;
    while i < keys.len()
        invariant
            0 <= i <= keys@.len(),
            find_jwk_spec(keys@, kid@, 0) == find_jwk_spec(keys@, kid@, i as int),
        decreases keys@.len() - i,
    {
        if keys[i].kid == *kid {
            return Option::Some(&keys[i]);
        }
        i += 1;
    }
    Option::None
}

/// The display name of a set of claims: the preferred username when present,
/// else the profile name, else "Anonymous".
pub fn display_name(preferred: Option<String>, name: Option<String>) -> (r: String)
    ensures
        (preferred matches Option::Some(p) ==> r == p),
        preferred is None ==> (name matches Option::Some(nm) ==> r == nm),
        preferred is None && name is None ==> r@ == "Anonymous"@,
{
    match preferred {
        Option::Some(p) => p,
        Option::None => match name {
            Option::Some(nm) => nm,
            Option::None => String::from_str("Anonymous"),
        },
    }
}

} // verus!
