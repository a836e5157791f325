//! The pure decisions of the access layer: who may log in, which rows a
//! user may see, and how a login failure is reported. The session store,
//! cookies and the storage-account login itself live outside and hand these
//! functions plain values.

use vstd::prelude::*;

use crate::common::{str_eq, ServerId, ServerState};

verus! {

/// Whether a logged-in user may use the relay: everyone while the
/// allow-list is empty, otherwise only listed users and the admin.
pub fn is_user_allowed(allowed: &Vec<String>, email: &str, admin: Option<&str>) -> (r: bool)
    ensures
        r == (allowed@.len() == 0 || (exists|i: int|
            0 <= i < allowed@.len() && (#[trigger] allowed@[i])@ == email@) || (match admin {
            Some(a) => a@ == email@,
            None => false,
        })),
{
    if allowed.len() == 0 {
        return true;
    }
    let mut i: usize = 0;
    while i < allowed.len()
        invariant
            i <= allowed@.len(),
            forall|j: int| 0 <= j < i ==> (#[trigger] allowed@[j])@ != email@,
        decreases allowed@.len() - i,
    {
        if str_eq(allowed[i].as_str(), email) {
            return true;
        }
        i = i + 1;
    }
    match admin {
        Some(a) => str_eq(a, email),
        None => false,
    }
}

/// The message a failed storage-account login reports, by the error code
/// the storage API returned (absent code rendered empty).
pub open spec fn spec_login_failure(code: Option<&str>) -> Seq<char> {
    match code {
        Some(c) => if c@ == "enter_2fa"@ {
            "2FA required"@
        } else if c@ == "email_or_password_wrong"@ {
            "Email or password wrong"@
        } else {
            "Failed to log in (code "@ + c@ + ")"@
        },
        None => "Failed to log in (code "@ + ")"@,
    }
}

/// Maps the error code of a failed storage-account login to the message
/// shown to the user.
pub fn login_failure_message(code: Option<&str>) -> (r: String)
    ensures
        r@ == spec_login_failure(code),
{
    match code {
        Some(c) => {
            if str_eq(c, "enter_2fa") {
                "2FA required".to_owned()
            } else if str_eq(c, "email_or_password_wrong") {
                "Email or password wrong".to_owned()
            } else {
                let mut s = "Failed to log in (code ".to_owned();
                s.append(c);
                s.append(")");
                proof {
                    assert(s@ =~= "Failed to log in (code "@ + c@ + ")"@);
                }
                s
            }
        },
        None => {
            let mut s = "Failed to log in (code ".to_owned();
            s.append(")");
            proof {
                assert(s@ =~= "Failed to log in (code "@ + ")"@);
            }
            s
        },
    }
}

/// The rows of the snapshot owned by `email`, in table order — what the
/// state-streaming surface shows one user.
pub fn states_for_user(states: &Vec<ServerState>, email: &str) -> (r: Vec<ServerState>)
    ensures
        r@ == states@.filter(|s: ServerState| s.spec.filen_email@ == email@),
{
    let ghost pred = |s: ServerState| s.spec.filen_email@ == email@;
    let mut r: Vec<ServerState> = Vec::new();
    let mut i: usize = 0;
    proof {
        reveal(Seq::filter);
        assert(states@.subrange(0, 0).filter(pred) =~= Seq::<ServerState>::empty());
    }
    while i < states.len()
        invariant
            i <= states@.len(),
            r@ == states@.subrange(0, i as int).filter(
                |s: ServerState| s.spec.filen_email@ == email@,
            ),
        decreases states@.len() - i,
    {
        let ghost prefix = states@.subrange(0, i as int);
        let keep = str_eq(states[i].spec.filen_email.as_str(), email);
        if keep {
            r.push(states[i].duplicate());
        }
        proof {
            reveal(Seq::filter);
            let longer = states@.subrange(0, i + 1 as int);
            assert(longer.drop_last() =~= prefix);
            assert(longer.last() == states@[i as int]);
        }
        i = i + 1;
    }
    proof {
        assert(states@.subrange(0, states@.len() as int) =~= states@);
    }
    r
}

/// A blank character a cookie header may pad its entries with.
pub open spec fn is_blank(c: char) -> bool {
    c == ' ' || c == '\t'
}

/// The index of the first `c` in `s`, or `s.len()` when there is none.
pub open spec fn first_at(s: Seq<char>, c: char) -> int
    decreases s.len(),
{
    if s.len() == 0 {
        0
    } else if s[0] == c {
        0
    } else {
        1 + first_at(s.skip(1), c)
    }
}

/// What `first_at` finds: everything before it differs from `c`, and it
/// sits on a `c` unless there is none.
pub proof fn lemma_first_at(s: Seq<char>, c: char)
    ensures
        0 <= first_at(s, c) <= s.len(),
        forall|j: int| 0 <= j < first_at(s, c) ==> s[j] != c,
        first_at(s, c) < s.len() ==> s[first_at(s, c)] == c,
    decreases s.len(),
{
    if s.len() > 0 && s[0] != c {
        lemma_first_at(s.skip(1), c);
        let f = first_at(s, c);
        assert forall|j: int| 0 <= j < f implies s[j] != c by {
            if j > 0 {
                assert(s.skip(1)[j - 1] == s[j]);
            }
        }
        if f < s.len() {
            assert(s.skip(1)[f - 1] == s[f]);
        }
    }
}

/// A position with `first_at`'s characterisation is `first_at`.
pub proof fn lemma_first_at_is(s: Seq<char>, c: char, e: int)
    requires
        0 <= e <= s.len(),
        forall|j: int| 0 <= j < e ==> s[j] != c,
        e == s.len() || s[e] == c,
    ensures
        e == first_at(s, c),
{
    lemma_first_at(s, c);
    let f = first_at(s, c);
    if e < f {
        assert(s[e] != c);
        assert(s[e] == c);
    }
    if f < e {
        assert(s[f] != c);
        assert(s[f] == c);
    }
}

/// The index of the first non-blank character, or `s.len()`.
pub open spec fn first_text(s: Seq<char>) -> int
    decreases s.len(),
{
    if s.len() == 0 {
        0
    } else if is_blank(s[0]) {
        1 + first_text(s.skip(1))
    } else {
        0
    }
}

/// What `first_text` finds.
pub proof fn lemma_first_text(s: Seq<char>)
    ensures
        0 <= first_text(s) <= s.len(),
        forall|j: int| 0 <= j < first_text(s) ==> is_blank(s[j]),
        first_text(s) < s.len() ==> !is_blank(s[first_text(s)]),
    decreases s.len(),
{
    if s.len() > 0 && is_blank(s[0]) {
        lemma_first_text(s.skip(1));
        let f = first_text(s);
        assert forall|j: int| 0 <= j < f implies is_blank(s[j]) by {
            if j > 0 {
                assert(s.skip(1)[j - 1] == s[j]);
            }
        }
        if f < s.len() {
            assert(s.skip(1)[f - 1] == s[f]);
        }
    }
}

/// A position with `first_text`'s characterisation is `first_text`.
pub proof fn lemma_first_text_is(s: Seq<char>, e: int)
    requires
        0 <= e <= s.len(),
        forall|j: int| 0 <= j < e ==> is_blank(s[j]),
        e == s.len() || !is_blank(s[e]),
    ensures
        e == first_text(s),
{
    lemma_first_text(s);
    let f = first_text(s);
    if e < f {
        assert(is_blank(s[e]));
        assert(!is_blank(s[e]));
    }
    if f < e {
        assert(is_blank(s[f]));
        assert(!is_blank(s[f]));
    }
}

/// One past the last non-blank character, or 0 when all is blank.
pub open spec fn end_text(s: Seq<char>) -> int
    decreases s.len(),
{
    if s.len() == 0 {
        0
    } else if is_blank(s.last()) {
        end_text(s.drop_last())
    } else {
        s.len() as int
    }
}

/// What `end_text` finds.
pub proof fn lemma_end_text(s: Seq<char>)
    ensures
        0 <= end_text(s) <= s.len(),
        forall|j: int| end_text(s) <= j < s.len() ==> is_blank(s[j]),
        end_text(s) > 0 ==> !is_blank(s[end_text(s) - 1]),
    decreases s.len(),
{
    if s.len() > 0 && is_blank(s.last()) {
        lemma_end_text(s.drop_last());
        let e = end_text(s);
        assert forall|j: int| e <= j < s.len() implies is_blank(s[j]) by {
            if j < s.len() - 1 {
                assert(s.drop_last()[j] == s[j]);
            }
        }
        if e > 0 {
            assert(s.drop_last()[e - 1] == s[e - 1]);
        }
    }
}

/// A position with `end_text`'s characterisation is `end_text`.
pub proof fn lemma_end_text_is(s: Seq<char>, e: int)
    requires
        0 <= e <= s.len(),
        forall|j: int| e <= j < s.len() ==> is_blank(s[j]),
        e == 0 || !is_blank(s[e - 1]),
    ensures
        e == end_text(s),
{
    lemma_end_text(s);
    let f = end_text(s);
    if e < f {
        assert(is_blank(s[f - 1]));
        assert(!is_blank(s[f - 1]));
    }
    if f < e {
        assert(is_blank(s[e - 1]));
        assert(!is_blank(s[e - 1]));
    }
}

/// The session token one cookie entry carries, if any: the entry is
/// trimmed of surrounding blanks, cut at its first `'='`, and yields its
/// value exactly when the name reads `Session`.
pub open spec fn segment_token(seg: Seq<char>) -> Option<Seq<char>> {
    let lo = first_text(seg);
    let hi = end_text(seg);
    if lo >= hi {
        Option::None
    } else {
        let t = seg.subrange(lo, hi);
        let e = first_at(t, '=');
        if e == t.len() {
            Option::None
        } else if t.take(e) == "Session"@ {
            Option::Some(t.skip(e + 1))
        } else {
            Option::None
        }
    }
}

/// The session token a cookie header carries: its entries are separated by
/// `';'` and the first entry named `Session` decides.
pub open spec fn spec_session_token(s: Seq<char>) -> Option<Seq<char>>
    decreases s.len(),
{
    let m = first_at(s, ';');
    if 0 <= m < s.len() {
        match segment_token(s.take(m)) {
            Option::Some(v) => Option::Some(v),
            Option::None => spec_session_token(s.skip(m + 1)),
        }
    } else {
        segment_token(s)
    }
}

/// Whether a character is a cookie-padding blank.
fn blank_char(c: char) -> (r: bool)
    ensures
        r == is_blank(c),
{
    c == ' ' || c == '\t'
}

/// Extracts the session token from a `Cookie` request header: the value of
/// the first entry named `Session`, entries separated by `';'` and trimmed
/// of surrounding blanks.
pub fn session_token_from_cookie(header: &str) -> (r: Option<String>)
    ensures
        match r {
            Some(v) => spec_session_token(header@) == Option::Some(v@),
            None => spec_session_token(header@) is None,
        },
{
    let n = header.unicode_len();
    let mut start: usize = 0;
    proof {
        assert(header@.skip(0) =~= header@);
    }
    loop
        invariant
            0 <= start <= n,
            n == header@.len(),
            spec_session_token(header@) == spec_session_token(header@.skip(start as int)),
        decreases n - start,
    {
        let ghost suffix = header@.skip(start as int);

        // the end of this entry: the next ';' or the end of the header
        let mut semi: usize = start;
        while semi < n && header.get_char(semi) != ';'
            invariant
                start <= semi <= n,
                n == header@.len(),
                forall|j: int| start <= j < semi ==> header@[j] != ';',
            decreases n - semi,
        {
            semi = semi + 1;
        }
        let ghost m: int = semi as int - start as int;
        let ghost seg = suffix.take(m);
        proof {
            assert forall|j: int| 0 <= j < m implies suffix[j] != ';' by {
                assert(suffix[j] == header@[start + j]);
            }
            if (semi as int) < n as int {
                assert(suffix[m] == header@[semi as int]);
            }
            lemma_first_at_is(suffix, ';', m);
            assert forall|j: int| 0 <= j < m implies seg[j] == header@[start + j] by {
                assert(seg[j] == suffix[j]);
            }
        }

        // trim the entry of surrounding blanks
        let mut lo: usize = start;
        while lo < semi && blank_char(header.get_char(lo))
            invariant
                start <= lo <= semi <= n,
                n == header@.len(),
                forall|j: int| start <= j < lo ==> is_blank(header@[j]),
            decreases semi - lo,
        {
            lo = lo + 1;
        }

        if lo == semi {
            // nothing but blanks: this entry carries no token
            proof {
                lemma_first_text_is(seg, m);
                lemma_end_text(seg);
                assert(segment_token(seg) is None);
            }
        } else {
            let mut hi: usize = semi;
            while hi > lo && blank_char(header.get_char(hi - 1))
                invariant
                    lo <= hi <= semi <= n,
                    n == header@.len(),
                    forall|j: int| hi <= j < semi ==> is_blank(header@[j]),
                decreases hi,
            {
                hi = hi - 1;
            }
            proof {
                assert(!is_blank(header@[lo as int]));
                if hi == lo {
                    assert(is_blank(header@[lo as int]));
                }
                lemma_first_text_is(seg, lo as int - start as int);
                lemma_end_text_is(seg, hi as int - start as int);
            }
            let ghost t = seg.subrange(lo as int - start as int, hi as int - start as int);
            proof {
                assert forall|j: int| 0 <= j < hi - lo implies t[j] == header@[lo + j] by {
                    assert(t[j] == seg[lo - start + j]);
                }
            }

            // the name/value split: the first '=' of the trimmed entry
            let mut eq: usize = lo;
            while eq < hi && header.get_char(eq) != '='
                invariant
                    lo <= eq <= hi <= n,
                    n == header@.len(),
                    forall|j: int| lo <= j < eq ==> header@[j] != '=',
                decreases hi - eq,
            {
                eq = eq + 1;
            }
            proof {
                assert forall|j: int| 0 <= j < eq - lo implies t[j] != '=' by {
                    assert(t[j] == header@[lo + j]);
                }
                if eq < hi {
                    assert(t[eq - lo] == header@[eq as int]);
                }
                lemma_first_at_is(t, '=', eq as int - lo as int);
            }

            if eq == hi {
                proof {
                    assert(segment_token(seg) is None);
                }
            } else {
                let name = header.substring_char(lo, eq);
                proof {
                    assert(name@ =~= t.take(eq as int - lo as int));
                }
                if str_eq(name, "Session") {
                    let value = header.substring_char(eq + 1, hi);
                    proof {
                        assert(value@ =~= t.skip(eq as int - lo as int + 1));
                        assert(segment_token(seg) == Option::Some(value@));
                        if m < suffix.len() {
                            assert(spec_session_token(suffix) == Option::Some(value@));
                        } else {
                            assert(seg =~= suffix);
                            assert(spec_session_token(suffix) == Option::Some(value@));
                        }
                    }
                    return Some(value.to_owned());
                }
                proof {
                    assert(segment_token(seg) is None);
                }
            }
        }

        // this entry carried no token: move past it, or stop at the end
        proof {
            assert(segment_token(seg) is None);
            if m < suffix.len() {
                assert(spec_session_token(suffix) == spec_session_token(suffix.skip(m + 1)));
                assert(suffix.skip(m + 1) =~= header@.skip(semi + 1 as int));
            } else {
                assert(seg =~= suffix);
                assert(spec_session_token(suffix) is None);
            }
        }
        if semi == n {
            return None;
        }
        start = semi + 1;
    }
}

/// Whether the snapshot holds a row with this id owned by `email` — the
/// check made before a remove request is accepted from a user.
pub fn find_owned(states: &Vec<ServerState>, id: &ServerId, email: &str) -> (r: bool)
    ensures
        r == (exists|i: int|
            0 <= i < states@.len() && (#[trigger] states@[i]).spec.id@ == id@
                && states@[i].spec.filen_email@ == email@),
{
    let mut i: usize = 0;
    while i < states.len()
        invariant
            i <= states@.len(),
            forall|j: int|
                0 <= j < i ==> !((#[trigger] states@[j]).spec.id@ == id@
                    && states@[j].spec.filen_email@ == email@),
        decreases states@.len() - i,
    {
        if states[i].spec.id.same_as(id) && str_eq(states[i].spec.filen_email.as_str(), email) {
            return true;
        }
        i = i + 1;
    }
    false
}

} // verus!
