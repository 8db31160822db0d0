//! The decisions of the request handlers, parted from their I/O: what a
//! login answers given the stored hash, what a registration stores and
//! returns, and which SQL text and parameters a search runs.

use crate::errors::MyError;
use crate::security::{argon2_matches, check_password, hash_password};
use crate::token::{generate_token, token_bytes, TOKEN_LIFETIME_SECS};
use crate::types::{LoginRequest, RegisterRequest, RegisterResponse};
use vstd::prelude::*;
use vstd::string::StringExecFns;
use vstd::utf8::encode_utf8;

verus! {

/// Relies on uuid's `Uuid::new_v4`: a fresh random identifier, returned as
/// its 128-bit value; nothing is assumed of the value.
#[verifier::external_body]
fn fresh_uuid() -> (r: u128) {
    uuid::Uuid::new_v4().as_u128()
}

/// Decide a login, given the hash the directory stores for the requested
/// identifier (or nothing, when no such user exists). An absent user and a
/// wrong password fail with the same error, so a caller cannot tell the two
/// apart; on a matching password the answer is exactly the token issued for
/// that identifier at `now`.
pub fn login(key: &[u8], request: &LoginRequest, stored_hash: &Option<String>, now: u64) -> (r:
    Result<String, MyError>)
    requires
        now + TOKEN_LIFETIME_SECS <= u64::MAX,
    ensures
        r is Ok <==> stored_hash is Some && argon2_matches(
            encode_utf8(request.password@),
            stored_hash->0@,
        ),
        r is Err ==> r == Err::<String, MyError>(MyError::ArgonError),
        r is Ok ==> encode_utf8(r->Ok_0@) == token_bytes(
            key@,
            request.id,
            (now + TOKEN_LIFETIME_SECS) as u64,
        ),
{
    match stored_hash {
        None => Err(MyError::ArgonError),
        Some(h) => match check_password(&request.password, h) {
            Err(e) => Err(e),
            Ok(()) => match generate_token(key, request.id, now) {
                Ok(t) => Ok(t),
                Err(e) => Err(e),
            },
        },
    }
}

/// Decide a registration: derive the hash to store and draw the identifier,
/// and build the caller-facing profile, which repeats every request field
/// except the password and cannot hold the hash. An error means only that
/// hashing failed.
pub fn register(request: &RegisterRequest) -> (r: Result<(RegisterResponse, String), MyError>)
    ensures
        r is Ok ==> ({
            let (resp, stored) = r->Ok_0;
            &&& argon2_matches(encode_utf8(request.password@), stored@)
            &&& resp.first_name@ == request.first_name@
            &&& resp.second_name@ == request.second_name@
            &&& resp.birthdate == request.birthdate
            &&& resp.biography@ == request.biography@
            &&& resp.city@ == request.city@
        }),
        r is Err ==> r == Err::<(RegisterResponse, String), MyError>(MyError::ArgonError),
{
    let stored = match hash_password(&request.password) {
        Ok(h) => h,
        Err(e) => {
            return Err(e);
        },
    };
    let id = fresh_uuid();
    let resp = RegisterResponse {
        id,
        first_name: clone_string(&request.first_name),
        second_name: clone_string(&request.second_name),
        birthdate: request.birthdate,
        biography: clone_string(&request.biography),
        city: clone_string(&request.city),
    };
    Ok((resp, stored))
}

fn clone_string(s: &String) -> (r: String)
    ensures
        r@ == s@,
{
    String::from_str(s.as_str())
}

/// The SQL a search runs and the parameters bound to its placeholders.
pub struct SearchQuery {
    pub sql: String,
    pub params: Vec<String>,
}

/// The search statement's fixed head: the selected columns, up to the
/// filter clause.
pub open spec fn search_sql_head() -> Seq<char> {
    "
        SELECT u.id,
               u.first_name,
               u.second_name,
               u.birthdate,
               u.biography,
               u.city
        FROM users u
        WHERE
        "@
}

/// The filter clause for the present filters, with positional placeholders
/// numbered in order.
pub open spec fn search_clause(has_first: bool, has_second: bool) -> Seq<char>
    recommends
        has_first || has_second,
{
    if has_first && has_second {
        " u.first_name LIKE $1"@ + " AND"@ + " u.second_name LIKE $2"@
    } else if has_first {
        " u.first_name LIKE $1"@
    } else {
        " u.second_name LIKE $1"@
    }
}

/// The whole search statement for the present filters.
pub open spec fn search_sql(has_first: bool, has_second: bool) -> Seq<char>
    recommends
        has_first || has_second,
{
    search_sql_head() + search_clause(has_first, has_second) + " ORDER BY u.id"@
}

/// Build the search statement for the given name-prefix filters, or refuse
/// when none is given, before anything could reach the directory. Each
/// present filter becomes one bound parameter, the prefix with `%` appended;
/// no filter text is ever spliced into the SQL.
pub fn build_search_query(first: &Option<String>, second: &Option<String>) -> (r: Option<
    SearchQuery,
>)
    ensures
        r is Some <==> first is Some || second is Some,
        r is Some ==> ({
            let q = r->0;
            &&& q.sql@ == search_sql(first is Some, second is Some)
            &&& q.params@.len() == (if first is Some {
                1int
            } else {
                0int
            }) + (if second is Some {
                1int
            } else {
                0int
            })
            &&& (first is Some ==> q.params@[0]@ == first->0@ + "%"@)
            &&& (second is Some ==> q.params@[q.params@.len() - 1]@ == second->0@ + "%"@)
        }),
{
    if first.is_none() && second.is_none() {
        return None;
    }
    let mut sql = String::from_str(
        "
        SELECT u.id,
               u.first_name,
               u.second_name,
               u.birthdate,
               u.biography,
               u.city
        FROM users u
        WHERE
        ",
    );
    let mut params: Vec<String> = Vec::new();
    match first {
        Some(f) => {
            sql.append(" u.first_name LIKE $1");
            let mut p = clone_string(f);
            p.append("%");
            params.push(p);
        },
        None => {},
    }
    match second {
        Some(s) => {
            if first.is_some() {
                sql.append(" AND");
                sql.append(" u.second_name LIKE $2");
            } else {
                sql.append(" u.second_name LIKE $1");
            }
            let mut p = clone_string(s);
            p.append("%");
            params.push(p);
        },
        None => {},
    }
    sql.append(" ORDER BY u.id");
    Some(SearchQuery { sql, params })
}

} // verus!
