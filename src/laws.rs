//! Properties of the store and of tokens that span several calls.
use vstd::prelude::*;
use crate::auth::login_result;
use crate::store::{after_register, register_outcome, RegisterOutcome};
use crate::token::{
    claims_verdict, count_dots, lemma_last_dot, hs256_signature, issued_token, last_dot, payload_fields, signature_dot,
    token_verdict, IssueError, jwt_of, TokenError, TOKEN_TTL_SECS,
};

verus! {

/// The store contents after a sequence of registrations, from empty.
pub open spec fn replay(ops: Seq<(Seq<char>, Seq<char>)>) -> Map<Seq<char>, Seq<char>>
    decreases ops.len(),
{
    if ops.len() == 0 {
        Map::empty()
    } else {
        after_register(replay(ops.drop_last()), ops.last().0, ops.last().1)
    }
}

/// What the `i`-th registration of `ops` returned.
pub open spec fn outcome_at(ops: Seq<(Seq<char>, Seq<char>)>, i: int) -> RegisterOutcome {
    register_outcome(replay(ops.take(i)), ops[i].0)
}

/// Registering a new username twice gives `Created`, then `Conflict`, and the
/// second call leaves the store as the first left it.
pub proof fn lemma_register_twice(
    users: Map<Seq<char>, Seq<char>>,
    username: Seq<char>,
    first: Seq<char>,
    second: Seq<char>,
)
    requires
        !users.contains_key(username),
    ensures
        register_outcome(users, username) == RegisterOutcome::Created,
        register_outcome(after_register(users, username, first), username) == RegisterOutcome::Conflict,
        after_register(after_register(users, username, first), username, second) == after_register(
            users,
            username,
            first,
        ),
{
}

proof fn lemma_replay_grows(ops: Seq<(Seq<char>, Seq<char>)>, i: int, j: int, k: Seq<char>)
    requires
        0 <= i <= j <= ops.len(),
        replay(ops.take(i)).contains_key(k),
    ensures
        replay(ops.take(j)).contains_key(k),
        replay(ops.take(j))[k] == replay(ops.take(i))[k],
    decreases j - i,
{
    if i < j {
        assert(ops.take(i + 1).drop_last() =~= ops.take(i));
        lemma_replay_grows(ops, i + 1, j, k);
    }
}

/// Of any sequence of registrations from an empty store, at most one of
/// those with the same username returns `Created`.
pub proof fn lemma_one_created_per_username(ops: Seq<(Seq<char>, Seq<char>)>, i: int, j: int)
    requires
        0 <= i < j < ops.len(),
        ops[i].0 == ops[j].0,
    ensures
        outcome_at(ops, j) == RegisterOutcome::Conflict,
{
    assert(ops.take(i + 1).drop_last() =~= ops.take(i));
    lemma_replay_grows(ops, i + 1, j, ops[i].0);
}

/// After a sequence of registrations from an empty store, a username is
/// registered exactly when one of the registrations of it returned
/// `Created`.
pub proof fn lemma_registered_iff_created(ops: Seq<(Seq<char>, Seq<char>)>, username: Seq<char>)
    ensures
        replay(ops).contains_key(username) <==> exists|i: int|
            0 <= i < ops.len() && ops[i].0 == username && outcome_at(ops, i)
                == RegisterOutcome::Created,
    decreases ops.len(),
{
    if ops.len() > 0 {
        let init = ops.drop_last();
        let n = ops.len() - 1;
        lemma_registered_iff_created(init, username);
        assert(ops.take(n) =~= init);
        assert forall|i: int| 0 <= i < n implies outcome_at(ops, i) == outcome_at(init, i) by {
            assert(ops.take(i) =~= init.take(i));
        }
        if replay(ops).contains_key(username) {
            if !replay(init).contains_key(username) {
                assert(ops[n].0 == username && outcome_at(ops, n) == RegisterOutcome::Created);
            } else {
                let i = choose|i: int|
                    0 <= i < init.len() && init[i].0 == username && outcome_at(init, i)
                        == RegisterOutcome::Created;
                assert(ops[i].0 == username && outcome_at(ops, i) == RegisterOutcome::Created);
            }
        } else {
            assert forall|i: int|
                0 <= i < ops.len() && ops[i].0 == username implies outcome_at(ops, i)
                != RegisterOutcome::Created by {
                if i == n {
                } else {
                    assert(init[i].0 == username);
                }
            }
        }
    } else {
        assert(replay(ops) == Map::<Seq<char>, Seq<char>>::empty());
    }
}

/// An unknown username and a wrong password for a known one get the same
/// answer from `login`: `Invalid`, with no token.
pub proof fn lemma_rejections_alike(
    users: Map<Seq<char>, Seq<char>>,
    unknown: Seq<char>,
    any_password: Seq<char>,
    known: Seq<char>,
    wrong_password: Seq<char>,
    now: u64,
    secret: Seq<u8>,
)
    requires
        !users.contains_key(unknown),
        users.contains_key(known),
        users[known] != wrong_password,
    ensures
        login_result(users, unknown, any_password, now, secret) == Ok::<
            Option<Seq<char>>,
            IssueError,
        >(None),
        login_result(users, unknown, any_password, now, secret) == login_result(
            users,
            known,
            wrong_password,
            now,
            secret,
        ),
{
}

/// In a sequence of registrations from an empty store, the first one of a
/// username returns `Created`, and its password is the one the store keeps
/// for that username at the end, whatever came after.
pub proof fn lemma_first_registration_wins(ops: Seq<(Seq<char>, Seq<char>)>, i: int)
    requires
        0 <= i < ops.len(),
        forall|j: int| 0 <= j < i ==> ops[j].0 != ops[i].0,
    ensures
        outcome_at(ops, i) == RegisterOutcome::Created,
        replay(ops).contains_key(ops[i].0),
        replay(ops)[ops[i].0] == ops[i].1,
{
    let u = ops[i].0;
    let pre = ops.take(i);
    lemma_registered_iff_created(pre, u);
    assert(!replay(pre).contains_key(u)) by {
        if replay(pre).contains_key(u) {
            let j = choose|j: int|
                0 <= j < pre.len() && pre[j].0 == u && outcome_at(pre, j) == RegisterOutcome::Created;
            assert(ops[j].0 == u);
        }
    }
    assert(ops.take(i + 1).drop_last() =~= pre);
    lemma_replay_grows(ops, i + 1, ops.len() as int, u);
    assert(ops.take(ops.len() as int) =~= ops);
}

/// After a sequence of registrations from an empty store, logging in as a
/// username of which no registration returned `Created` gives `Invalid`,
/// whatever the password.
pub proof fn lemma_unregistered_login_rejected(
    ops: Seq<(Seq<char>, Seq<char>)>,
    username: Seq<char>,
    password: Seq<char>,
    now: u64,
    secret: Seq<u8>,
)
    requires
        forall|i: int|
            0 <= i < ops.len() && ops[i].0 == username ==> outcome_at(ops, i)
                != RegisterOutcome::Created,
    ensures
        login_result(replay(ops), username, password, now, secret) == Ok::<
            Option<Seq<char>>,
            IssueError,
        >(None),
{
    lemma_registered_iff_created(ops, username);
}

/// After a sequence of registrations from an empty store, the credentials of
/// a registration that returned `Created` log in, and the token names that
/// user, whatever registrations came after.
pub proof fn lemma_created_user_logs_in(
    ops: Seq<(Seq<char>, Seq<char>)>,
    i: int,
    now: u64,
    secret: Seq<u8>,
)
    requires
        0 <= i < ops.len(),
        outcome_at(ops, i) == RegisterOutcome::Created,
        now + TOKEN_TTL_SECS <= u64::MAX,
    ensures
        login_result(replay(ops), ops[i].0, ops[i].1, now, secret) == Ok::<
            Option<Seq<char>>,
            IssueError,
        >(Some(jwt_of(ops[i].0, now, (now + TOKEN_TTL_SECS) as u64, secret))),
{
    assert forall|j: int| 0 <= j < i implies ops[j].0 != ops[i].0 by {
        if ops[j].0 == ops[i].0 {
            lemma_one_created_per_username(ops, j, i);
        }
    }
    lemma_first_registration_wins(ops, i);
}

/// Claims made at `now` are accepted at `now` and at every time up to their
/// expiry, and rejected as expired one second after it.
pub proof fn lemma_fresh_claims_window(sub: Seq<char>, now: u64, at: u64)
    requires
        now + TOKEN_TTL_SECS < u64::MAX,
    ensures
        claims_verdict(Some((Some(sub), Some(now), Some((now + TOKEN_TTL_SECS) as u64), 3nat)), now) == Ok::<
            Seq<char>,
            TokenError,
        >(sub),
        claims_verdict(
            Some((Some(sub), Some(now), Some((now + TOKEN_TTL_SECS) as u64), 3nat)),
            (now + TOKEN_TTL_SECS + 1) as u64,
        ) == Err::<Seq<char>, TokenError>(TokenError::Expired),
        now <= at <= now + TOKEN_TTL_SECS ==> claims_verdict(
            Some((Some(sub), Some(now), Some((now + TOKEN_TTL_SECS) as u64), 3nat)),
            at,
        ) == Ok::<Seq<char>, TokenError>(sub),
{
}

/// A token issued for `sub` at `now` is accepted at `now`, naming `sub`,
/// and rejected as expired one second after its expiry.
pub proof fn lemma_issued_token_accepted(token: Seq<char>, sub: Seq<char>, now: u64, secret: Seq<u8>)
    requires
        now + TOKEN_TTL_SECS < u64::MAX,
        issued_token(token, sub, now, (now + TOKEN_TTL_SECS) as u64, secret),
    ensures
        token_verdict(token, now, secret) == Ok::<Seq<char>, TokenError>(sub),
        token_verdict(token, (now + TOKEN_TTL_SECS + 1) as u64, secret) == Err::<Seq<char>, TokenError>(
            TokenError::Expired,
        ),
{
}

/// A token accepted at some time is rejected as expired one second after
/// the `exp` it carries.
pub proof fn lemma_accepted_token_expires(token: Seq<char>, now: u64, secret: Seq<u8>)
    requires
        token_verdict(token, now, secret) is Ok,
    ensures
        payload_fields(token) matches Some((_, _, Some(exp), _)) && (exp < u64::MAX ==> token_verdict(
            token,
            (exp + 1) as u64,
            secret,
        ) == Err::<Seq<char>, TokenError>(TokenError::Expired)),
{
}

proof fn lemma_update_after_last_dot(s: Seq<char>, j: int, c: char)
    requires
        last_dot(s) < j < s.len(),
    ensures
        count_dots(s.update(j, c)) == count_dots(s) + if c == '.' { 1nat } else { 0nat },
        c != '.' ==> last_dot(s.update(j, c)) == last_dot(s),
    decreases s.len(),
{
    lemma_last_dot(s);
    let t = s.update(j, c);
    assert(s.last() != '.');
    if j == s.len() - 1 {
        assert(t.drop_last() =~= s.drop_last());
    } else {
        assert(t.drop_last() =~= s.drop_last().update(j, c));
        lemma_update_after_last_dot(s.drop_last(), j, c);
    }
}

/// Changing any one character of the signature segment of a token that is
/// accepted at some time makes it rejected at every time.
pub proof fn lemma_tampered_signature_rejected(
    token: Seq<char>,
    j: int,
    c: char,
    now: u64,
    later: u64,
    secret: Seq<u8>,
)
    requires
        token_verdict(token, now, secret) is Ok,
        signature_dot(token) matches Some(k) && k < j < token.len(),
        c != token[j],
    ensures
        token_verdict(token.update(j, c), later, secret) is Err,
{
    let k = signature_dot(token)->Some_0;
    lemma_last_dot(token);
    let t = token.update(j, c);
    lemma_update_after_last_dot(token, j, c);
    if c != '.' {
        assert(t.subrange(0, k) =~= token.subrange(0, k));
        let sig = token.subrange(k + 1, token.len() as int);
        let sig2 = t.subrange(k + 1, t.len() as int);
        assert(sig2[j - k - 1] != sig[j - k - 1]);
        assert(sig2 != hs256_signature(t.subrange(0, k), secret));
    }
}

} // verus!
