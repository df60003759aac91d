//! Who may do what: passwords, sessions, the test that every request passes, and
//! the management of users.

use vstd::prelude::*;
use vstd::string::*;
use vstd::utf8::*;
use argon2::{PasswordHasher, PasswordVerifier};
use base64::Engine;
use rand::RngCore;
use crate::encode;
use crate::text;

verus! {

/// The user that a request comes from.
pub struct CurrentUser(pub String);

/// The form that signs a user in, or adds one.
pub struct LoginForm {
    pub username: String,
    pub password: String,
}

/// The form that names a user.
pub struct UserForm {
    pub username: String,
}

// ---- passwords ----

/// An error of the `argon2` crate's password hashing.
#[verifier::external_type_specification]
#[verifier::external_body]
pub struct ExHashError(argon2::password_hash::Error);

/// The stored hash `hash` is one of the password `pw`.
pub uninterp spec fn password_matches(pw: Seq<char>, hash: Seq<char>) -> bool;

/// Has the password too many bytes to be hashed?
pub open spec fn too_long(pw: Seq<char>) -> bool {
    encode_utf8(pw).len() > 0xFFFF_FFFF
}

/// `PasswordHasher::hash_password` of `Argon2`, with a salt drawn at random,
/// gives a hash that the password matches and that begins with `$argon2`. It
/// fails on a password of more than `MAX_PWD_LEN` bytes and on no other. What
/// the hash holds besides is left unsaid, since the salt is random.
#[verifier::external_body]
fn argon2_hash(pw: &str) -> (r: Result<String, argon2::password_hash::Error>)
    ensures
        match r {
            Ok(h) => !too_long(pw@) && password_matches(pw@, h@) && text::occurs_at(
                h@,
                "$argon2"@,
                0,
            ),
            Err(_) => too_long(pw@),
        },
{
    let salt = argon2::password_hash::SaltString::generate(
        &mut argon2::password_hash::rand_core::OsRng,
    );
    argon2::Argon2::default().hash_password(pw.as_bytes(), &salt).map(|h| h.to_string())
}

/// `PasswordVerifier::verify_password` of `Argon2`, on what `PasswordHash::new`
/// reads of a stored hash, depends on the two texts alone. Text that is no
/// stored hash matches no password.
#[verifier::external_body]
fn argon2_verify(pw: &str, hash: &str) -> (r: bool)
    ensures
        r == password_matches(pw@, hash@),
{
    argon2::PasswordHash::new(hash)
        .map(|h| argon2::Argon2::default().verify_password(pw.as_bytes(), &h).is_ok())
        .unwrap_or(false)
}

/// `Display` of a hashing error says in words what went wrong; in which words
/// is left open.
#[verifier::external_body]
fn hash_error_text(e: &argon2::password_hash::Error) -> (r: String) {
    format!("{e}")
}

/// A hash to store for a password, which is one of the password; an error where
/// the password is too long.
pub fn hash_password(pw: &str) -> (r: Result<String, String>)
    ensures
        match r {
            Ok(h) => !too_long(pw@) && password_matches(pw@, h@) && text::occurs_at(
                h@,
                "$argon2"@,
                0,
            ),
            Err(e) => too_long(pw@) && text::occurs_at(e@, "hash: "@, 0),
        },
{
    match argon2_hash(pw) {
        Ok(h) => Ok(h),
        Err(e) => {
            let mut message = "hash: ".to_string();
            message.append(hash_error_text(&e).as_str());
            assert(message@.subrange(0, "hash: "@.len() as int) =~= "hash: "@);
            Err(message)
        },
    }
}

/// Is the stored hash one of the password?
pub fn verify_password(pw: &str, hash: &str) -> (r: bool)
    ensures
        r == password_matches(pw@, hash@),
{
    argon2_verify(pw, hash)
}

/// Does the password match the hash that is stored for the user? Where none is
/// stored, no password does.
pub fn check_login(hash: &Option<String>, password: &str) -> (r: bool)
    ensures
        r == (hash is Some && password_matches(password@, hash->0@)),
{
    match hash {
        Some(h) => verify_password(password, h.as_str()),
        None => false,
    }
}

/// Must the first user be made? So it is where there is none yet.
pub fn needs_admin(users: i64) -> (r: bool)
    ensures
        r == (users <= 0),
{
    users <= 0
}

/// The password of the first user: the configured one, else `admin`.
pub fn admin_password(configured: Option<String>) -> (r: String)
    ensures
        r@ == match configured {
            Some(pw) => pw@,
            None => "admin"@,
        },
{
    match configured {
        Some(pw) => pw,
        None => "admin".to_string(),
    }
}

// ---- sessions ----

/// `RngCore::fill_bytes` of the system's random source gives bytes that no
/// contract can foretell; there are 32 of them.
#[verifier::external_body]
fn random_bytes() -> (r: Vec<u8>)
    ensures
        r@.len() == 32,
{
    let mut bytes = [0u8; 32];
    rand::rngs::OsRng.fill_bytes(&mut bytes);
    bytes.to_vec()
}

/// The token that random bytes make: their hexadecimal form.
pub fn token_of(bytes: &[u8]) -> (r: String)
    ensures
        r@ == encode::hex_of(bytes@),
{
    encode::hex(bytes)
}

/// Text of hexadecimal digits in lowercase.
pub open spec fn is_lower_hex(s: Seq<char>) -> bool {
    forall|i: int| 0 <= i < s.len() ==> '0' <= #[trigger] s[i] <= '9' || 'a' <= s[i] <= 'f'
}

/// A new session token: 64 random hexadecimal digits.
pub fn new_token() -> (r: String)
    ensures
        r@.len() == 64,
        is_lower_hex(r@),
{
    token_of(random_bytes().as_slice())
}

/// The name and value of a cookie, from its text.
pub open spec fn cookie_parts(c: Seq<char>) -> Option<(Seq<char>, Seq<char>)> {
    let t = text::trimmed(c);
    match text::first_char(t, '=', 0) {
        Some(i) => Some((t.take(i), t.skip(i + 1))),
        None => None,
    }
}

/// The value of the first cookie named `session`, from `i` on.
pub open spec fn session_value(cookies: Seq<Seq<char>>, i: int) -> Option<Seq<char>>
    decreases cookies.len() - i,
{
    if i < 0 || i >= cookies.len() {
        None
    } else if cookie_parts(cookies[i]) is Some && (cookie_parts(cookies[i])->0).0 == "session"@ {
        Some((cookie_parts(cookies[i])->0).1)
    } else {
        session_value(cookies, i + 1)
    }
}

/// The session token in a cookie header.
pub fn cookie_token(cookies: &str) -> (r: Option<String>)
    ensures
        r.deep_view() == session_value(text::pieces(cookies@, ';'), 0),
{
    let all = text::split(cookies, ';');
    let mut i: usize = 0;
    while i < all.len()
        invariant
            all.deep_view() == text::pieces(cookies@, ';'),
            i <= all.len(),
            session_value(all.deep_view(), 0) == session_value(all.deep_view(), i as int),
        decreases all.len() - i,
    {
        assert(all.deep_view()[i as int] == all@[i as int]@);
        let cookie = text::trim(all[i].as_str());
        let cs = text::chars_of(cookie.as_str());
        if let Some(k) = text::find_char(&cs, '=', 0) {
            let name = text::string_of(&cs[0..k]);
            assert(name@ =~= cookie@.take(k as int));
            if text::same(name.as_str(), "session") {
                assert(cs@.subrange(k + 1, cs@.len() as int) =~= cookie@.skip(k + 1));
                return Some(text::string_of(&cs[k + 1..cs.len()]));
            }
        }
        i += 1;
    }
    None
}

/// A session is read back: a browser that returns the cookie of a token, alone
/// or with other cookies behind it, is known by that token.
pub proof fn law_session_read_back(token: Seq<char>, rest: Seq<char>)
    requires
        is_lower_hex(token),
        rest.len() > 0 ==> rest[0] == ';',
    ensures
        session_value(text::pieces("session="@ + token + rest, ';'), 0) == Some(token),
{
    reveal_strlit("session=");
    reveal_strlit("session");
    let cookie = "session="@ + token;
    let s = cookie + rest;
    assert forall|j: int| 0 <= j < cookie.len() implies cookie[j] != ';' && !text::is_white(
        cookie[j],
    ) by {
        if j >= 8 {
            assert(cookie[j] == token[j - 8]);
        }
    }
    text::lemma_first_char(s, ';', 0);
    let all = text::pieces(s, ';');
    match text::first_char(s, ';', 0) {
        Some(i) => {
            assert(s[i] == ';');
            if i < cookie.len() {
                assert(s[i] == cookie[i]);
            }
            if i > cookie.len() {
                assert(s[cookie.len() as int] == rest[0]);
            }
            assert(s.subrange(0, i) =~= cookie);
        },
        None => {
            if rest.len() > 0 {
                assert(s[cookie.len() as int] == rest[0]);
            }
            assert(s.skip(0) =~= cookie);
        },
    }
    assert(all[0] == cookie);
    text::lemma_trimmed_start(cookie, text::CharSet::White);
    text::lemma_trimmed_end(cookie, text::CharSet::White);
    assert(cookie.last() == cookie[cookie.len() - 1]);
    assert(text::trimmed(cookie) == cookie);
    text::lemma_first_char(cookie, '=', 0);
    assert(cookie[7] == '=');
    let i = text::first_char(cookie, '=', 0)->0;
    assert forall|j: int| 0 <= j < 7 implies cookie[j] != '=' by {
        assert(cookie[j] == "session="@[j]);
    }
    assert(i == 7);
    assert(cookie.take(7) =~= "session"@);
    assert(cookie.skip(8) =~= token);
}

/// The cookie that starts a session.
pub fn session_cookie(token: &str) -> (r: String)
    ensures
        r@ == "session="@ + token@ + "; HttpOnly; Path=/; SameSite=Lax; Max-Age=2592000"@,
{
    let mut c = "session=".to_string();
    c.append(token);
    c.append("; HttpOnly; Path=/; SameSite=Lax; Max-Age=2592000");
    c
}

/// The cookie that signing in gives, for a fresh session token; nothing where
/// the password is not that of the user.
pub fn login(hash: &Option<String>, f: &LoginForm, token: &str) -> (r: Option<String>)
    ensures
        r.deep_view() == if hash is Some && password_matches(f.password@, hash->0@) {
            Some("session="@ + token@ + "; HttpOnly; Path=/; SameSite=Lax; Max-Age=2592000"@)
        } else {
            None
        },
{
    if check_login(hash, f.password.as_str()) {
        Some(session_cookie(token))
    } else {
        None
    }
}

/// The cookie that ends a session.
pub fn logout_cookie() -> (r: String)
    ensures
        r@ == "session=; HttpOnly; Path=/; Max-Age=0"@,
{
    "session=; HttpOnly; Path=/; Max-Age=0".to_string()
}

// ---- HTTP Basic ----

/// The bytes that text encodes in standard Base64; nothing where it is none.
pub uninterp spec fn base64_bytes(s: Seq<char>) -> Option<Seq<u8>>;

/// `Engine::decode` of the engine `STANDARD` depends on the text alone.
#[verifier::external_body]
fn base64_decode(s: &str) -> (r: Option<Vec<u8>>)
    ensures
        match r {
            Some(bytes) => base64_bytes(s@) == Some(bytes@),
            None => base64_bytes(s@) is None,
        },
{
    base64::engine::general_purpose::STANDARD.decode(s).ok()
}

/// `String::from_utf8` decodes UTF-8 and fails on other bytes.
#[verifier::external_body]
fn utf8_text(bytes: Vec<u8>) -> (r: Option<String>)
    ensures
        match r {
            Some(s) => valid_utf8(bytes@) && s@ == decode_utf8(bytes@),
            None => !valid_utf8(bytes@),
        },
{
    String::from_utf8(bytes).ok()
}

/// The user name and password that decoded credentials hold: what stands
/// before and after the first colon.
pub open spec fn credentials_in(bytes: Seq<u8>) -> Option<(Seq<char>, Seq<char>)> {
    if valid_utf8(bytes) {
        let s = decode_utf8(bytes);
        match text::first_char(s, ':', 0) {
            Some(i) => Some((s.take(i), s.skip(i + 1))),
            None => None,
        }
    } else {
        None
    }
}

/// The views of a pair of strings that may be missing.
pub open spec fn pair_view(o: Option<(String, String)>) -> Option<(Seq<char>, Seq<char>)> {
    match o {
        Some(p) => Some((p.0@, p.1@)),
        None => None,
    }
}

/// The user name and password that decoded credentials hold.
pub fn split_credentials(bytes: Vec<u8>) -> (r: Option<(String, String)>)
    ensures
        pair_view(r) == credentials_in(bytes@),
{
    let s = match utf8_text(bytes) {
        Some(s) => s,
        None => {
            return None;
        },
    };
    let cs = text::chars_of(s.as_str());
    match text::find_char(&cs, ':', 0) {
        Some(i) => {
            assert(cs@.subrange(0, i as int) =~= s@.take(i as int));
            assert(cs@.subrange(i + 1, cs@.len() as int) =~= s@.skip(i + 1));
            Some((text::string_of(&cs[0..i]), text::string_of(&cs[i + 1..cs.len()])))
        },
        None => None,
    }
}

/// The user name and password in an authorization header: what follows
/// `Basic `, decoded.
pub fn basic_auth(header: &str) -> (r: Option<(String, String)>)
    ensures
        pair_view(r) == if text::occurs_at(header@, "Basic "@, 0) && base64_bytes(
            header@.skip("Basic "@.len() as int),
        ) is Some {
            credentials_in(base64_bytes(header@.skip("Basic "@.len() as int))->0)
        } else {
            None
        },
{
    let encoded = match text::after_prefix(header, "Basic ") {
        Some(rest) => rest,
        None => {
            return None;
        },
    };
    match base64_decode(encoded.as_str()) {
        Some(bytes) => split_credentials(bytes),
        None => None,
    }
}

// ---- admission ----

/// What becomes of a request.
pub enum Gate {
    /// Lets it through without a user.
    Pass,
    /// Lets it through as this user.
    PassAs(CurrentUser),
    /// Sends it to another page.
    Redirect(String),
    /// Refuses it.
    Refuse(Refusal),
}

/// The answer to a request that is refused.
pub struct Refusal {
    pub status: u16,
    /// How to authenticate, where that would help.
    pub challenge: Option<String>,
    pub body: String,
}

/// The paths that need no user.
pub open spec fn is_exempt(path: Seq<char>) -> bool {
    path == "/login"@ || path == "/healthz"@ || text::occurs_at(path, "/assets"@, 0)
}

/// Does a page at this path need no user?
pub fn exempt(path: &str) -> (r: bool)
    ensures
        r == is_exempt(path@),
{
    text::same(path, "/login") || text::same(path, "/healthz") || text::starts_with(path, "/assets")
}

/// Does the accept header ask for a page?
pub fn wants_html(accept: &Option<String>) -> (r: bool)
    ensures
        r == (accept is Some && text::has(accept->0@, "text/html"@)),
{
    match accept {
        Some(a) => text::contains(a.as_str(), "text/html"),
        None => false,
    }
}

/// Admits a request or not. One to an exempt path passes; any other needs a user, from
/// its session or else from HTTP Basic. Without one it is sent to the login page
/// if it asks for a page, and is refused otherwise.
pub fn gate(
    path: &str,
    session: Option<String>,
    basic: Option<String>,
    accept: &Option<String>,
) -> (r: Gate)
    ensures
        is_exempt(path@) ==> r is Pass,
        !is_exempt(path@) && session is Some ==> r == Gate::PassAs(CurrentUser(session->0)),
        !is_exempt(path@) && session is None && basic is Some ==> r == Gate::PassAs(
            CurrentUser(basic->0),
        ),
        !is_exempt(path@) && session is None && basic is None ==> if accept is Some && text::has(
            accept->0@,
            "text/html"@,
        ) {
            r matches Gate::Redirect(to) && to@ == "/login"@
        } else {
            r matches Gate::Refuse(refusal) && refusal.status == 401
                && refusal.challenge.deep_view() == Some("Basic realm=\"shelfarrs\""@)
                && refusal.body@ == "authentication required"@
        },
{
    if exempt(path) {
        return Gate::Pass;
    }
    if let Some(u) = session {
        return Gate::PassAs(CurrentUser(u));
    }
    if let Some(u) = basic {
        return Gate::PassAs(CurrentUser(u));
    }
    if wants_html(accept) {
        Gate::Redirect("/login".to_string())
    } else {
        Gate::Refuse(
            Refusal {
                status: 401,
                challenge: Some("Basic realm=\"shelfarrs\"".to_string()),
                body: "authentication required".to_string(),
            },
        )
    }
}

/// Refuses a user who is no administrator.
pub fn deny_non_admin(is_admin: i64) -> (r: Option<Refusal>)
    ensures
        match r {
            Some(refusal) => is_admin != 1 && refusal.status == 403 && refusal.challenge is None
                && refusal.body@ == "admin only"@,
            None => is_admin == 1,
        },
{
    if is_admin == 1 {
        None
    } else {
        Some(Refusal { status: 403, challenge: None, body: "admin only".to_string() })
    }
}

// ---- users ----

/// The name of the user that a form adds; nothing where the name is blank or
/// the password is empty.
pub fn new_user(f: &LoginForm) -> (r: Option<String>)
    ensures
        r.deep_view() == if text::trimmed(f.username@).len() > 0 && f.password@.len() > 0 {
            Some(text::trimmed(f.username@))
        } else {
            None
        },
{
    let name = text::trim(f.username.as_str());
    if text::empty(name.as_str()) || text::empty(f.password.as_str()) {
        None
    } else {
        Some(name)
    }
}

/// The name and the password hash of the user that a form adds. A form with a
/// blank name or an empty password adds none, and so does one whose password
/// is too long.
pub fn user_add(f: &LoginForm) -> (r: Option<(String, String)>)
    ensures
        r is Some == (text::trimmed(f.username@).len() > 0 && f.password@.len() > 0 && !too_long(
            f.password@,
        )),
        r matches Some(u) ==> u.0@ == text::trimmed(f.username@) && password_matches(
            f.password@,
            u.1@,
        ),
{
    match new_user(f) {
        Some(name) => match hash_password(f.password.as_str()) {
            Ok(h) => Some((name, h)),
            Err(_) => None,
        },
        None => None,
    }
}

/// May a user be removed? Every one may but the first, `admin`.
pub fn user_remove(f: &UserForm) -> (r: bool)
    ensures
        r == (f.username@ != "admin"@),
{
    !text::same(f.username.as_str(), "admin")
}

/// One user on the users page.
pub struct UserRow {
    pub username: String,
    pub is_admin: bool,
    pub removable: bool,
}

/// A stored user.
pub struct StoredUser {
    pub username: String,
    pub is_admin: i64,
}

/// The users page.
pub fn users_page(users: &Vec<StoredUser>) -> (r: Vec<UserRow>)
    ensures
        r.len() == users.len(),
        forall|i: int|
            0 <= i < users.len() ==> {
                &&& (#[trigger] r@[i]).username@ == users@[i].username@
                &&& r@[i].is_admin == (users@[i].is_admin == 1)
                &&& r@[i].removable == (users@[i].username@ != "admin"@)
            },
{
    let mut rows: Vec<UserRow> = Vec::new();
    let mut i: usize = 0;
    while i < users.len()
        invariant
            i <= users.len(),
            rows.len() == i,
            forall|j: int|
                0 <= j < i ==> {
                    &&& (#[trigger] rows@[j]).username@ == users@[j].username@
                    &&& rows@[j].is_admin == (users@[j].is_admin == 1)
                    &&& rows@[j].removable == (users@[j].username@ != "admin"@)
                },
        decreases users.len() - i,
    {
        rows.push(
            UserRow {
                username: users[i].username.clone(),
                is_admin: users[i].is_admin == 1,
                removable: !text::same(users[i].username.as_str(), "admin"),
            },
        );
        i += 1;
    }
    rows
}

// ---- who is let in ----

/// The session is that of the first cookie named `session`, wherever it stands
/// among the cookies.
pub proof fn law_session_found(cookies: Seq<Seq<char>>, i: int, k: int, value: Seq<char>)
    requires
        0 <= i <= k < cookies.len(),
        text::trimmed(cookies[k]) == "session="@ + value,
        forall|j: int| i <= j < k ==> !is_session(#[trigger] cookies[j]),
    ensures
        session_value(cookies, i) == Some(value),
    decreases k - i,
{
    reveal_strlit("session=");
    reveal_strlit("session");
    if i < k {
        lemma_session_cookie(cookies[i]);
        assert(!is_session(cookies[i]));
        law_session_found(cookies, i + 1, k, value);
    } else {
        let name = "session"@;
        assert("session="@ =~= name + seq!['=']);
        assert(!name.contains('='));
        text::law_first_char_behind(name, '=', value);
        assert(text::trimmed(cookies[k]) =~= name + seq!['='] + value);
    }
}

/// The text of a cookie is that of one named `session`.
pub open spec fn is_session(cookie: Seq<char>) -> bool {
    text::occurs_at(text::trimmed(cookie), "session="@, 0)
}

proof fn lemma_session_cookie(cookie: Seq<char>)
    ensures
        is_session(cookie) <==> cookie_parts(cookie) is Some && (cookie_parts(cookie)->0).0
            == "session"@,
{
    reveal_strlit("session=");
    reveal_strlit("session");
    let t = text::trimmed(cookie);
    let name = "session"@;
    assert("session="@ =~= name + seq!['=']);
    text::lemma_first_char(t, '=', 0);
    if is_session(cookie) {
        let rest = t.skip(8);
        assert(t.subrange(0, 8) == "session="@);
        assert(t =~= name + seq!['='] + rest) by {
            assert forall|j: int| 0 <= j < 8 implies t[j] == "session="@[j] by {
                assert(t.subrange(0, 8)[j] == t[j]);
            }
        }
        text::law_first_char_behind(name, '=', rest);
    } else if cookie_parts(cookie) is Some && (cookie_parts(cookie)->0).0 == name {
        let i = text::first_char(t, '=', 0)->0;
        assert(t.take(i) == name);
        assert(i == 7);
        assert(t.subrange(0, 8) =~= "session="@) by {
            assert forall|j: int| 0 <= j < 7 implies t[j] == name[j] by {
                assert(t.take(i)[j] == t[j]);
            }
        }
    }
}

/// Without a cookie named `session` there is no session.
pub proof fn law_no_session(cookies: Seq<Seq<char>>, i: int)
    requires
        0 <= i,
        forall|j: int| i <= j < cookies.len() ==> !is_session(#[trigger] cookies[j]),
    ensures
        session_value(cookies, i) is None,
    decreases cookies.len() - i,
{
    if i < cookies.len() {
        lemma_session_cookie(cookies[i]);
        assert(!is_session(cookies[i]));
        law_no_session(cookies, i + 1);
    }
}

/// Credentials are read back: a name without a colon, a colon and a password,
/// which may hold colons, give that name and that password.
pub proof fn law_credentials(name: Seq<char>, password: Seq<char>)
    requires
        !name.contains(':'),
    ensures
        credentials_in(encode_utf8(name + seq![':'] + password)) == Some((name, password)),
{
    let s = name + seq![':'] + password;
    encode_utf8_valid_utf8(s);
    encode_utf8_decode_utf8(s);
    text::law_first_char_behind(name, ':', password);
}

/// Text without a colon holds no credentials.
pub proof fn law_no_credentials(s: Seq<char>)
    requires
        !s.contains(':'),
    ensures
        credentials_in(encode_utf8(s)) is None,
{
    encode_utf8_valid_utf8(s);
    encode_utf8_decode_utf8(s);
    text::lemma_first_char(s, ':', 0);
}

/// Only the login page, the health check and the assets are open to everyone:
/// a path that begins otherwise needs a user, and so does one that goes on
/// behind the login page or the health check.
pub proof fn law_exempt(path: Seq<char>, more: Seq<char>)
    ensures
        is_exempt("/login"@) && is_exempt("/healthz"@),
        is_exempt("/assets"@ + more),
        more.len() > 0 ==> !is_exempt("/login"@ + more) && !is_exempt("/healthz"@ + more),
        !text::occurs_at(path, "/login"@, 0) && !text::occurs_at(path, "/healthz"@, 0)
            && !text::occurs_at(path, "/assets"@, 0) ==> !is_exempt(path),
{
    reveal_strlit("/login");
    reveal_strlit("/healthz");
    reveal_strlit("/assets");
    assert(("/assets"@ + more).subrange(0, 7) =~= "/assets"@);
    assert("/login"@.subrange(0, 6) =~= "/login"@);
    assert("/healthz"@.subrange(0, 8) =~= "/healthz"@);
    let a = "/login"@ + more;
    let b = "/healthz"@ + more;
    assert(a[1] == 'l' && b[1] == 'h' && "/healthz"@[1] == 'h' && "/login"@[1] == 'l');
    if text::occurs_at(a, "/assets"@, 0) {
        assert(a.subrange(0, 7)[1] == a[1]);
    }
    if text::occurs_at(b, "/assets"@, 0) {
        assert(b.subrange(0, 7)[1] == b[1]);
    }
}

/// Nobody is let in unknown: whatever page is asked for, a request passes without
/// a user only to an exempt path, and as a user only where the session or the
/// header names that user, of whom the session decides.
pub proof fn law_gate(
    path: &str,
    session: Option<String>,
    basic: Option<String>,
    accept: &Option<String>,
    r: Gate,
)
    requires
        call_ensures(gate, (path, session, basic, accept), r),
    ensures
        r is Pass ==> is_exempt(path@),
        r matches Gate::PassAs(u) ==> (session == Some(u.0) || session is None && basic == Some(
            u.0,
        )),
        r is Redirect || r is Refuse ==> session is None && basic is None && !is_exempt(path@),
        r matches Gate::Refuse(why) ==> why.status == 401 && why.challenge is Some,
{
}

/// Only an administrator passes, and the administrator's own account stays.
pub proof fn law_admin(is_admin: i64, r: Option<Refusal>, f: &UserForm, removed: bool)
    requires
        call_ensures(deny_non_admin, (is_admin,), r),
        call_ensures(user_remove, (f,), removed),
    ensures
        r is None <==> is_admin == 1,
        r matches Some(why) ==> why.status == 403 && why.challenge is None,
        removed <==> f.username@ != "admin"@,
{
}

/// A session is opened exactly for the right password of a user that there is, and
/// its cookie carries the token of that session, out of the reach of scripts.
pub proof fn law_login(
    hash: &Option<String>,
    f: &LoginForm,
    token: &str,
    r: Option<String>,
    password: &str,
    ok: bool,
)
    requires
        call_ensures(login, (hash, f, token), r),
        call_ensures(check_login, (hash, password), ok),
        password@ == f.password@,
    ensures
        r is Some <==> ok,
        ok ==> (hash matches Some(h) && password_matches(f.password@, h@)),
        hash is None ==> r is None,
        r matches Some(cookie) ==> text::occurs_at(cookie@, "session="@ + token@ + ";"@, 0)
            && text::has(cookie@, "HttpOnly"@),
{
    if let Some(cookie) = r {
        reveal_strlit("session=");
        reveal_strlit(";");
        reveal_strlit("; HttpOnly; Path=/; SameSite=Lax; Max-Age=2592000");
        reveal_strlit("HttpOnly");
        let c = cookie@;
        let front = "session="@ + token@ + ";"@;
        assert(c.subrange(0, front.len() as int) =~= front);
        let i = front.len() as int + 1;
        assert(c.subrange(i, i + 8) =~= "HttpOnly"@);
        assert(text::occurs_at(c, "HttpOnly"@, i));
        text::law_has(c, "HttpOnly"@);
    }
}

/// A user is added under the name of the form without the blanks around it, and
/// never without a name or a password; every user is listed, and only the
/// administrator's own account cannot be removed.
pub proof fn law_users(
    f: &LoginForm,
    added: Option<String>,
    users: &Vec<StoredUser>,
    rows: Vec<UserRow>,
    i: int,
)
    requires
        call_ensures(new_user, (f,), added),
        call_ensures(users_page, (users,), rows),
        0 <= i < users.len(),
    ensures
        added is Some <==> text::trimmed(f.username@).len() > 0 && f.password@.len() > 0,
        added matches Some(name) ==> name@ == text::trimmed(f.username@),
        rows.len() == users.len(),
        rows@[i].username@ == users@[i].username@,
        rows@[i].is_admin <==> users@[i].is_admin == 1,
        rows@[i].removable <==> users@[i].username@ != "admin"@,
{
    assert(rows@[i].username@ == users@[i].username@);
}

} // verus!
