//! The admin authorization guard: turning a request's identity-token
//! header and the identity provider's verdict on that token into an admin
//! capability, checked against a configured allow-list of subject ids.
//!
//! The identity provider is an outside collaborator that the surrounding
//! program consults over the network; this module decides, for every
//! possible verdict, whether the request is authorized.

use vstd::prelude::*;
use vstd::string::StrSliceExecFns;

verus! {

/// Why a request carries no admin capability.
#[derive(Debug, PartialEq, Eq, Structural)]
pub enum IdTokenError {
    Missing,
    Invalid,
}

/// A failed token verification, as the identity provider reports it: a
/// malformed token, a provider error, or failed claims checks.
#[derive(Debug, PartialEq, Eq, Structural)]
pub enum VerificationError {
    Invalid,
}

/// The identity a verified token yields: the provider's stable subject id
/// and, when the token grants it, an email.
pub struct Identity {
    pub sub: String,
    pub email: Option<String>,
}

/// Proof that a request was authorized as an administrator; handlers use
/// it only as a capability. It carries the verified subject id.
pub struct Admin(pub String);

/// A character sequence split at every comma. The empty sequence splits
/// into one empty segment.
pub open spec fn split_commas(s: Seq<char>) -> Seq<Seq<char>>
    decreases s.len(),
{
    if s.len() == 0 {
        seq![Seq::<char>::empty()]
    } else if s[0] == ',' {
        seq![Seq::<char>::empty()] + split_commas(s.drop_first())
    } else {
        let rest = split_commas(s.drop_first());
        seq![seq![s[0]] + rest[0]] + rest.drop_first()
    }
}

proof fn lemma_split_commas_len(s: Seq<char>)
    ensures
        split_commas(s).len() >= 1,
    decreases s.len(),
{
    if s.len() > 0 {
        lemma_split_commas_len(s.drop_first());
    }
}

/// `segs` with `p` prefixed onto its first segment.
spec fn prepend_first(p: Seq<char>, segs: Seq<Seq<char>>) -> Seq<Seq<char>>
    recommends
        segs.len() >= 1,
{
    seq![p + segs[0]] + segs.drop_first()
}

/// Splits the configured comma-separated allow-list into subject ids.
pub fn parse_admins(s: &String) -> (r: Vec<String>)
    ensures
        r.deep_view() == split_commas(s@),
{
    let n = s.as_str().unicode_len();
    let mut out: Vec<String> = Vec::new();
    let mut start: usize = 0;
    let mut i: usize = 0;
    proof {
        lemma_split_commas_len(s@);
        assert(s@.skip(0) =~= s@);
        assert(prepend_first(s@.subrange(0, 0), split_commas(s@)) =~~= split_commas(s@));
        assert(split_commas(s@) =~~= out.deep_view() + prepend_first(
            s@.subrange(0, 0),
            split_commas(s@.skip(0)),
        ));
    }
    while i < n
        invariant
            start <= i <= n,
            n == s@.len(),
            split_commas(s@) == out.deep_view() + prepend_first(
                s@.subrange(start as int, i as int),
                split_commas(s@.skip(i as int)),
            ),
        decreases n - i,
    {
        let ghost pre = out.deep_view();
        let ghost cur = s@.subrange(start as int, i as int);
        let ghost tail = s@.skip(i as int);
        let c = s.as_str().get_char(i);
        if c == ',' {
            let seg = s.as_str().substring_char(start, i);
            out.push(seg.to_owned());
            proof {
                lemma_split_commas_len(s@.skip(i as int + 1));
                assert(tail[0] == ',');
                assert(tail.drop_first() =~= s@.skip(i as int + 1));
                assert(split_commas(tail) == seq![Seq::<char>::empty()] + split_commas(
                    s@.skip(i as int + 1),
                ));
                assert(prepend_first(cur, split_commas(tail)) =~~= seq![cur] + split_commas(
                    s@.skip(i as int + 1),
                ));
                assert(out.deep_view() =~~= pre.push(cur));
                assert(s@.subrange(i as int + 1, i as int + 1) =~= Seq::<char>::empty());
                assert(prepend_first(Seq::<char>::empty(), split_commas(s@.skip(i as int + 1)))
                    =~~= split_commas(s@.skip(i as int + 1)));
                assert(split_commas(s@) =~~= out.deep_view() + prepend_first(
                    s@.subrange(i as int + 1, i as int + 1),
                    split_commas(s@.skip(i as int + 1)),
                ));
            }
            start = i + 1;
        } else {
            proof {
                lemma_split_commas_len(s@.skip(i as int + 1));
                assert(tail[0] == s@[i as int]);
                assert(tail.drop_first() =~= s@.skip(i as int + 1));
                let rest = split_commas(s@.skip(i as int + 1));
                assert(split_commas(tail) == seq![seq![tail[0]] + rest[0]] + rest.drop_first());
                assert(s@.subrange(start as int, i as int + 1) =~= cur.push(s@[i as int]));
                assert(prepend_first(cur, split_commas(tail)) =~~= prepend_first(
                    s@.subrange(start as int, i as int + 1),
                    rest,
                ));
            }
        }
        i += 1;
    }
    let ghost pre = out.deep_view();
    let last = s.as_str().substring_char(start, n);
    out.push(last.to_owned());
    proof {
        assert(s@.skip(n as int) =~= Seq::<char>::empty());
        assert(split_commas(s@.skip(n as int)) == seq![Seq::<char>::empty()]);
        assert(prepend_first(s@.subrange(start as int, n as int), seq![Seq::<char>::empty()])
            =~~= seq![s@.subrange(start as int, n as int)]);
        assert(out.deep_view() =~~= pre.push(s@.subrange(start as int, n as int)));
        assert(out.deep_view() =~~= split_commas(s@));
    }
    out
}

/// Is `sub` one of the allow-listed subject ids?
pub open spec fn subject_listed(admins: Seq<Seq<char>>, sub: Seq<char>) -> bool {
    exists|i: int| 0 <= i < admins.len() && admins[i] == sub
}

/// Exact allow-list membership of a subject id.
pub fn is_listed(admins: &Vec<String>, sub: &String) -> (r: bool)
    ensures
        r == subject_listed(admins.deep_view(), sub@),
{
    let mut i: usize = 0;
    while i < admins.len()
        invariant
            i <= admins@.len(),
            forall|k: int| 0 <= k < i ==> admins.deep_view()[k] != sub@,
        decreases admins@.len() - i,
    {
        if admins[i] == *sub {
            proof {
                assert(admins.deep_view()[i as int] == sub@);
            }
            return true;
        }
        i += 1;
    }
    false
}

/// Authorizes the identity provider's verdict on a presented token:
/// success exactly when the provider verified the token and the verified
/// subject is in the allow-list.
pub fn admin_from_identity(outcome: Result<Identity, VerificationError>, admins: &Vec<String>) -> (r:
    Result<Admin, IdTokenError>)
    ensures
        match outcome {
            Ok(id) => {
                &&& subject_listed(admins.deep_view(), id.sub@) <==> r is Ok
                &&& r matches Ok(a) ==> a.0@ == id.sub@
                &&& !subject_listed(admins.deep_view(), id.sub@) ==> r == Err::<
                    Admin,
                    IdTokenError,
                >(IdTokenError::Invalid)
            },
            Err(_) => r == Err::<Admin, IdTokenError>(IdTokenError::Invalid),
        },
{
    match outcome {
        Ok(id) => {
            if is_listed(admins, &id.sub) {
                Ok(Admin(id.sub))
            } else {
                Err(IdTokenError::Invalid)
            }
        },
        Err(_) => Err(IdTokenError::Invalid),
    }
}

/// The admin guard decision for one request. `verification` is absent
/// exactly when the request carried no identity-token header, so no token
/// reached the provider; otherwise it holds the provider's verdict on the
/// presented token. Success yields the capability, and only for verified,
/// allow-listed subjects.
pub fn admin_guard(
    verification: Option<Result<Identity, VerificationError>>,
    admins: &Vec<String>,
) -> (r: Result<Admin, IdTokenError>)
    ensures
        verification is None <==> r == Err::<Admin, IdTokenError>(IdTokenError::Missing),
        match verification {
            None => true,
            Some(outcome) => match outcome {
                Ok(id) => {
                    &&& subject_listed(admins.deep_view(), id.sub@) <==> r is Ok
                    &&& r matches Ok(a) ==> a.0@ == id.sub@
                    &&& !subject_listed(admins.deep_view(), id.sub@) ==> r == Err::<
                        Admin,
                        IdTokenError,
                    >(IdTokenError::Invalid)
                },
                Err(_) => r == Err::<Admin, IdTokenError>(IdTokenError::Invalid),
            },
        },
{
    match verification {
        None => Err(IdTokenError::Missing),
        Some(outcome) => admin_from_identity(outcome, admins),
    }
}

} // verus!
