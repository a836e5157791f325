//! Proxy target resolution: maps an inbound short instance id plus a path
//! remainder to a live backend URL, consulting a point-in-time snapshot of
//! the live state table.
//!
//! Resolution is a pure function of its inputs and must be re-evaluated per
//! request — backend ports change across restarts, so nothing here caches.
//! A request resolves only when its id is at least [`MIN_PREFIX_LEN`]
//! characters, matches a live instance's short id, and that instance is
//! `Running`; everything else is not-found, answered locally.

use vstd::prelude::*;

use crate::common::{short_of, str_eq, ServerState, ServerStatus};

verus! {

/// The fewest characters an inbound id may have and still be looked up.
pub const MIN_PREFIX_LEN: usize = 4;

/// The decimal digit character for `d` (`d < 10`).
pub open spec fn digit_char(d: nat) -> char {
    if d == 0 {
        '0'
    } else if d == 1 {
        '1'
    } else if d == 2 {
        '2'
    } else if d == 3 {
        '3'
    } else if d == 4 {
        '4'
    } else if d == 5 {
        '5'
    } else if d == 6 {
        '6'
    } else if d == 7 {
        '7'
    } else if d == 8 {
        '8'
    } else {
        '9'
    }
}

/// The decimal rendering of `n`, most significant digit first.
pub open spec fn dec_str(n: nat) -> Seq<char>
    decreases n,
{
    if n < 10 {
        seq![digit_char(n)]
    } else {
        dec_str(n / 10).push(digit_char(n % 10))
    }
}

/// The backend URL for a resolved instance: loopback on its bound port,
/// then the path remainder, then a forced trailing slash if the route asks
/// for one.
pub open spec fn spec_target(port: u16, rest: Seq<char>, extra_slash: bool) -> Seq<char> {
    "http://127.0.0.1:"@ + dec_str(port as nat) + rest + (if extra_slash {
        "/"@
    } else {
        Seq::<char>::empty()
    })
}

/// Whether some instance in the snapshot has `id` as its short id.
pub open spec fn has_short_match(states: Seq<ServerState>, id: Seq<char>) -> bool {
    exists|i: int| 0 <= i < states.len() && short_of((#[trigger] states[i]).spec.id@, id)
}

/// Whether `i` is the first instance in the snapshot whose short id is `id`.
pub open spec fn is_first_short_match(states: Seq<ServerState>, id: Seq<char>, i: int) -> bool {
    &&& 0 <= i < states.len()
    &&& short_of(states[i].spec.id@, id)
    &&& forall|j: int| 0 <= j < i ==> !short_of((#[trigger] states[j]).spec.id@, id)
}

/// An identifier has exactly one short id.
pub proof fn lemma_short_unique(s: Seq<char>, r1: Seq<char>, r2: Seq<char>)
    requires
        short_of(s, r1),
        short_of(s, r2),
    ensures
        r1 == r2,
{
    if r1.len() < r2.len() {
        assert(s[r1.len() as int] == '-');
        assert(s[r1.len() as int] != '-');
    } else if r2.len() < r1.len() {
        assert(s[r2.len() as int] == '-');
        assert(s[r2.len() as int] != '-');
    }
    assert(r1 =~= r2);
}

/// The decimal digit string for `d`.
fn digit_str(d: u16) -> (r: &'static str)
    requires
        d < 10,
    ensures
        r@ == seq![digit_char(d as nat)],
{
    if d == 0 {
        proof {
            reveal_strlit("0");
            assert("0"@ =~= seq![digit_char(0)]);
        }
        "0"
    } else if d == 1 {
        proof {
            reveal_strlit("1");
            assert("1"@ =~= seq![digit_char(1)]);
        }
        "1"
    } else if d == 2 {
        proof {
            reveal_strlit("2");
            assert("2"@ =~= seq![digit_char(2)]);
        }
        "2"
    } else if d == 3 {
        proof {
            reveal_strlit("3");
            assert("3"@ =~= seq![digit_char(3)]);
        }
        "3"
    } else if d == 4 {
        proof {
            reveal_strlit("4");
            assert("4"@ =~= seq![digit_char(4)]);
        }
        "4"
    } else if d == 5 {
        proof {
            reveal_strlit("5");
            assert("5"@ =~= seq![digit_char(5)]);
        }
        "5"
    } else if d == 6 {
        proof {
            reveal_strlit("6");
            assert("6"@ =~= seq![digit_char(6)]);
        }
        "6"
    } else if d == 7 {
        proof {
            reveal_strlit("7");
            assert("7"@ =~= seq![digit_char(7)]);
        }
        "7"
    } else if d == 8 {
        proof {
            reveal_strlit("8");
            assert("8"@ =~= seq![digit_char(8)]);
        }
        "8"
    } else {
        proof {
            reveal_strlit("9");
            assert("9"@ =~= seq![digit_char(9)]);
        }
        "9"
    }
}

/// Renders a port number in decimal.
pub fn u16_to_dec(n: u16) -> (r: String)
    ensures
        r@ == dec_str(n as nat),
    decreases n,
{
    if n < 10 {
        digit_str(n).to_owned()
    } else {
        let mut s = u16_to_dec(n / 10);
        s.append(digit_str(n % 10));
        proof {
            assert(s@ =~= dec_str((n / 10) as nat).push(digit_char((n % 10) as nat)));
        }
        s
    }
}

/// Builds the backend URL for a `Running` instance.
fn build_target(port: u16, rest: &str, extra_slash: bool) -> (r: String)
    ensures
        r@ == spec_target(port, rest@, extra_slash),
{
    let mut s = "http://127.0.0.1:".to_owned();
    let p = u16_to_dec(port);
    s.append(p.as_str());
    s.append(rest);
    if extra_slash {
        s.append("/");
        proof {
            assert(s@ =~= spec_target(port, rest@, true));
        }
    } else {
        proof {
            assert(s@ =~= spec_target(port, rest@, false));
        }
    }
    s
}

/// Looks up `id` among the snapshot's short ids and, when the first match
/// is `Running`, builds its backend URL with `rest` appended. Not-found
/// when the id is shorter than the minimum prefix, matches nothing, or the
/// match is `Starting` or `Error`.
fn lookup_and_build(
    states: &Vec<ServerState>,
    id: &str,
    rest: &str,
    extra_slash: bool,
) -> (r: Option<String>)
    ensures
        id@.len() < MIN_PREFIX_LEN as int ==> r is None,
        !has_short_match(states@, id@) ==> r is None,
        forall|i: int|
            #![trigger states@[i]]
            (id@.len() >= MIN_PREFIX_LEN as int && is_first_short_match(states@, id@, i))
                ==> (match states@[i].status {
                ServerStatus::Running { port } => r is Some && r->0@ == spec_target(
                    port,
                    rest@,
                    extra_slash,
                ),
                _ => r is None,
            }),
{
    if id.unicode_len() < MIN_PREFIX_LEN {
        return None;
    }
    let mut i: usize = 0;
    while i < states.len()
        invariant
            i <= states@.len(),
            id@.len() >= MIN_PREFIX_LEN as int,
            forall|j: int| 0 <= j < i ==> !short_of((#[trigger] states@[j]).spec.id@, id@),
        decreases states@.len() - i,
    {
        let short = states[i].spec.id.short();
        if str_eq(short.as_str(), id) {
            proof {
                assert(short_of(states@[i as int].spec.id@, id@));
            }
            match states[i].status {
                ServerStatus::Running { port } => {
                    let target = build_target(port, rest, extra_slash);
                    proof {
                        assert forall|i2: int|
                            is_first_short_match(states@, id@, i2) implies i2 == i as int by {
                            if i2 < i as int {
                                assert(!short_of(states@[i2].spec.id@, id@));
                            }
                            if (i as int) < i2 {
                                assert(!short_of(states@[i as int].spec.id@, id@));
                            }
                        }
                    }
                    return Some(target);
                },
                _ => {
                    proof {
                        assert forall|i2: int|
                            is_first_short_match(states@, id@, i2) implies i2 == i as int by {
                            if i2 < i as int {
                                assert(!short_of(states@[i2].spec.id@, id@));
                            }
                            if (i as int) < i2 {
                                assert(!short_of(states@[i as int].spec.id@, id@));
                            }
                        }
                    }
                    return None;
                },
            }
        }
        proof {
            if short_of(states@[i as int].spec.id@, id@) {
                lemma_short_unique(states@[i as int].spec.id@, short@, id@);
                assert(false);
            }
        }
        i = i + 1;
    }
    None
}

/// The path remainder a route hands to the proxy: a leading slash plus the
/// captured tail when the route carries one, nothing otherwise.
pub open spec fn spec_rest(with_rest: bool, rest: Option<&str>) -> Seq<char> {
    if with_rest {
        "/"@ + (match rest {
            Some(s) => s@,
            None => Seq::<char>::empty(),
        })
    } else {
        Seq::<char>::empty()
    }
}

/// Resolves one inbound route shape to a backend target. One value of this
/// type serves each of the three route patterns: bare id, id with a forced
/// trailing slash, and id with a captured tail.
#[derive(Clone, Copy, PartialEq, Eq, Structural, Debug)]
pub struct ServerResolver {
    /// The route captures a tail after the id.
    pub with_rest: bool,
    /// The route forces a trailing slash on the target.
    pub append_slash: bool,
}

impl ServerResolver {
    /// Resolves the inbound id (and captured tail, if this route has one)
    /// against a snapshot: the backend URL of the first `Running` match, or
    /// not-found, answered locally.
    pub fn resolve(&self, id: &str, rest: Option<&str>, states: &Vec<ServerState>) -> (r: Option<
        String,
    >)
        ensures
            id@.len() < MIN_PREFIX_LEN as int ==> r is None,
            !has_short_match(states@, id@) ==> r is None,
            forall|i: int|
                #![trigger states@[i]]
                (id@.len() >= MIN_PREFIX_LEN as int && is_first_short_match(states@, id@, i))
                    ==> (match states@[i].status {
                    ServerStatus::Running { port } => r is Some && r->0@ == spec_target(
                        port,
                        spec_rest(self.with_rest, rest),
                        self.append_slash,
                    ),
                    _ => r is None,
                }),
    {
        if self.with_rest {
            let mut tail = "/".to_owned();
            match rest {
                Some(rs) => {
                    tail.append(rs);
                },
                None => {},
            }
            proof {
                assert(tail@ =~= spec_rest(true, rest));
            }
            lookup_and_build(states, id, tail.as_str(), self.append_slash)
        } else {
            proof {
                reveal_strlit("");
                assert(""@ =~= spec_rest(false, rest));
            }
            lookup_and_build(states, id, "", self.append_slash)
        }
    }
}

/// Whether `e` marks the end of the id segment of `p`: the first `'/'` at
/// or after position 3, or the end of the path.
pub open spec fn id_end_at(p: Seq<char>, e: int) -> bool {
    &&& 3 <= e <= p.len()
    &&& (forall|j: int| 3 <= j < e ==> p[j] != '/')
    &&& (e == p.len() || p[e] == '/')
}

/// Resolves a full inbound path of the shape `/s/{id}`, `/s/{id}/` or
/// `/s/{id}/{rest}` against a snapshot: the backend URL of the first
/// `Running` match with the remainder appended, or not-found. Anything not
/// under `/s/` is not-found.
pub fn resolve_path(path: &str, states: &Vec<ServerState>) -> (r: Option<String>)
    ensures
        path@.len() < 3 ==> r is None,
        path@.len() >= 3 && path@.subrange(0, 3) != "/s/"@ ==> r is None,
        forall|e: int|
            (path@.len() >= 3 && path@.subrange(0, 3) == "/s/"@ && #[trigger] id_end_at(
                path@,
                e,
            )) ==> {
                &&& (e - 3 < MIN_PREFIX_LEN as int ==> r is None)
                &&& (!has_short_match(states@, path@.subrange(3, e)) ==> r is None)
                &&& forall|i: int|
                    #![trigger states@[i]]
                    (e - 3 >= MIN_PREFIX_LEN as int && is_first_short_match(
                        states@,
                        path@.subrange(3, e),
                        i,
                    )) ==> (match states@[i].status {
                        ServerStatus::Running { port } => r is Some && r->0@ == spec_target(
                            port,
                            path@.subrange(e, path@.len() as int),
                            false,
                        ),
                        _ => r is None,
                    })
            },
{
    let n = path.unicode_len();
    if n < 3 {
        return None;
    }
    if !(path.get_char(0) == '/' && path.get_char(1) == 's' && path.get_char(2) == '/') {
        proof {
            reveal_strlit("/s/");
            if path@.subrange(0, 3) == "/s/"@ {
                assert(path@[0] == path@.subrange(0, 3)[0]);
                assert(path@[1] == path@.subrange(0, 3)[1]);
                assert(path@[2] == path@.subrange(0, 3)[2]);
            }
        }
        return None;
    }
    proof {
        reveal_strlit("/s/");
        assert(path@.subrange(0, 3) =~= "/s/"@);
    }
    let mut e: usize = 3;
    while e < n && path.get_char(e) != '/'
        invariant
            3 <= e <= n,
            n == path@.len(),
            forall|j: int| 3 <= j < e ==> path@[j] != '/',
        decreases n - e,
    {
        e = e + 1;
    }
    let id = path.substring_char(3, e);
    let rest = path.substring_char(e, n);
    let r = lookup_and_build(states, id, rest, false);
    proof {
        assert(id_end_at(path@, e as int));
        assert forall|e2: int| id_end_at(path@, e2) implies e2 == e as int by {
            if e2 < e as int {
                assert(path@[e2] != '/');
                assert(e2 < path@.len());
                assert(path@[e2] == '/');
            }
            if (e as int) < e2 {
                assert(path@[e as int] != '/');
                assert((e as int) < path@.len());
                assert(path@[e as int] == '/');
            }
        }
        assert(id@ == path@.subrange(3, e as int));
        assert(rest@ == path@.subrange(e as int, path@.len() as int));
    }
    r
}

} // verus!
