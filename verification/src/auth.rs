//! Who may look: the operator's password, sessions, and the cookie that
//! carries them.

use vstd::prelude::*;
use vstd::utf8::*;

use crate::error::Error;
use crate::model;
use crate::outside;
use crate::schedule;
use crate::text;
use crate::web;
use crate::web::Reply;

verus! {

/// The cookie that carries a session's token.
pub const SESSION_COOKIE: &'static str = "canari_session";

/// How long a session lasts, in seconds: thirty days.
pub const SESSION_TTL: i64 = 2_592_000;

// --------------------------------------------------------------- passwords

/// What is stored for a password, given a salt, or why it is refused.
pub open spec fn password_hash(plain: Seq<char>, salt: Seq<u8>) -> Result<Seq<char>, Seq<char>> {
    if encode_utf8(plain).len() < 8 {
        Err("password must be at least 8 characters"@)
    } else {
        match outside::phc_hash(encode_utf8(plain), salt) {
            Ok(hash) => Ok(hash),
            Err(why) => Err("hashing password: "@ + why),
        }
    }
}

/// Whether what is stored lets a password in. Nothing stored lets none in, and
/// neither does something that is no password hash.
pub open spec fn lets_in(stored: Option<Seq<char>>, plain: Seq<char>) -> bool {
    match stored {
        None => false,
        Some(hash) => outside::is_phc(hash) && outside::phc_accepts(hash, encode_utf8(plain)),
    }
}

/// A result whose texts are strings, by their characters.
pub open spec fn texts(r: Result<String, Error>) -> Result<Seq<char>, Seq<char>> {
    match r {
        Ok(s) => Ok(s@),
        Err(e) => Err(e@),
    }
}

/// What to store for a password, given a salt. Whatever comes out lets that
/// password in.
pub fn hash_password(plain: &str, salt: &[u8; 16]) -> (r: Result<String, Error>)
    ensures
        texts(r) == password_hash(plain@, salt@),
        r matches Ok(hash) ==> lets_in(Some(hash@), plain@),
        8 <= encode_utf8(plain@).len() <= 0xffff_ffff ==> r is Ok,
{
    let bytes = plain.as_bytes();
    if bytes.len() < 8 {
        return Err(Error::new("password must be at least 8 characters"));
    }
    match outside::hash_phc(bytes, salt) {
        Ok(hash) => Ok(hash),
        Err(why) => {
            let mut message = "hashing password: ".to_owned();
            message.append(why.as_str());
            Err(Error { message })
        },
    }
}

/// What to store for the operator's password, under a random salt. Storing it
/// signs every existing session out.
pub fn set_password(plain: &str) -> (r: Result<String, Error>)
    ensures
        exists|salt: Seq<u8>| texts(r) == #[trigger] password_hash(plain@, salt),
        r matches Ok(hash) ==> lets_in(Some(hash@), plain@),
        encode_utf8(plain@).len() < 8 ==> texts(r) == Err::<Seq<char>, Seq<char>>(
            "password must be at least 8 characters"@,
        ),
        8 <= encode_utf8(plain@).len() <= 0xffff_ffff ==> r is Ok,
{
    let salt: [u8; 16] = outside::random_bytes();
    let r = hash_password(plain, &salt);
    assert(texts(r) == password_hash(plain@, salt@));
    r
}

/// Whether the stored hash lets a password in.
pub fn verify_password(stored: Option<&str>, plain: &str) -> (r: bool)
    ensures
        r == lets_in(schedule::chars(stored), plain@),
{
    match stored {
        None => false,
        Some(hash) => outside::reads_phc(hash) && outside::verify_phc(hash, plain.as_bytes()),
    }
}

/// A line without the line breaks at its end.
pub open spec fn without_breaks(line: Seq<char>) -> Seq<char>
    decreases line.len(),
{
    if line.len() > 0 && (line.last() == '\r' || line.last() == '\n') {
        without_breaks(line.drop_last())
    } else {
        line
    }
}

/// The password on a line that was typed, or a refusal when there is none.
pub fn entered_password(line: &str) -> (r: Result<String, Error>)
    ensures
        texts(r) == if without_breaks(line@).len() == 0 {
            Err("empty password"@)
        } else {
            Ok(without_breaks(line@))
        },
{
    let v = text::chars_of(line);
    let mut n: usize = v.len();
    assert(v@.take(n as int) =~= line@);
    while n > 0 && (v[n - 1] == '\r' || v[n - 1] == '\n')
        invariant
            n <= v@.len(),
            without_breaks(line@) == without_breaks(v@.take(n as int)),
        decreases n,
    {
        assert(v@.take(n as int).drop_last() =~= v@.take(n - 1));
        n = n - 1;
    }
    assert(without_breaks(line@) == v@.take(n as int));
    if n == 0 {
        Err(Error::new("empty password"))
    } else {
        assert(v@.subrange(0, n as int) =~= v@.take(n as int));
        Ok(text::text_between(&v, 0, n))
    }
}

// ----------------------------------------------------------------- secrets

/// What is stored of a secret.
pub open spec fn secret_hash(secret: Seq<char>) -> Seq<char> {
    outside::base64_url(outside::sha256(encode_utf8(secret)))
}

/// What to store of a secret. Shared by session tokens and API keys: both are
/// high-entropy secrets, so a plain SHA-256 is enough; there is nothing to
/// brute-force.
pub fn hash_secret(secret: &str) -> (r: String)
    ensures
        r@ == secret_hash(secret@),
        r@.len() == 43,
{
    let digest = outside::digest_sha256(secret.as_bytes());
    outside::encode_base64_url(digest.as_slice())
}

/// The URL-safe text of thirty-two bytes.
pub fn secret_from(bytes: &[u8; 32]) -> (r: String)
    ensures
        r@ == outside::base64_url(bytes@),
        r@.len() == 43,
{
    outside::encode_base64_url(bytes.as_slice())
}

/// Generate a URL-safe secret with 256 bits of entropy.
pub fn generate_secret() -> (r: String)
    ensures
        exists|bytes: Seq<u8>| bytes.len() == 32 && r@ == #[trigger] outside::base64_url(bytes),
        r@.len() == 43,
{
    let bytes: [u8; 32] = outside::random_bytes();
    secret_from(&bytes)
}

// ---------------------------------------------------------------- sessions

/// A session as it is stored: only the hash of its token.
#[derive(Debug)]
pub struct Session {
    pub token_hash: String,
    pub created_at: i64,
    pub expires_at: i64,
}

/// A session that was just opened.
#[derive(Debug)]
pub struct NewSession {
    /// What goes into the cookie; it is not stored.
    pub token: String,
    pub row: Session,
    /// Sessions that expired before this instant can go.
    pub purge_before: i64,
}

/// Whether a stored session was opened for a token and has not expired.
pub open spec fn admits(row: Session, token: Seq<char>, now: int) -> bool {
    row.token_hash@ == secret_hash(token) && row.expires_at > now
}

/// Whether one of the stored sessions admits a token.
pub open spec fn admitted(rows: Seq<Session>, token: Seq<char>, now: int) -> bool {
    exists|i: int| 0 <= i < rows.len() && admits(#[trigger] rows[i], token, now)
}

/// The session opened for a token at an instant.
pub fn open_session(token: String, ts: i64) -> (r: NewSession)
    requires
        ts + SESSION_TTL <= i64::MAX,
    ensures
        r.token@ == token@,
        r.row.token_hash@ == secret_hash(token@),
        r.row.created_at == ts,
        r.row.expires_at == ts + SESSION_TTL,
        r.purge_before == ts,
{
    let token_hash = hash_secret(token.as_str());
    NewSession {
        token,
        row: Session { token_hash, created_at: ts, expires_at: ts + SESSION_TTL },
        purge_before: ts,
    }
}

/// Open a session under a fresh token. Only its hash is to be stored; the
/// token itself goes into the cookie.
pub fn create_session() -> (r: NewSession)
    ensures
        exists|bytes: Seq<u8>|
            bytes.len() == 32 && r.token@ == #[trigger] outside::base64_url(bytes),
        r.row.token_hash@ == secret_hash(r.token@),
        r.row.created_at >= 0,
        r.row.expires_at == r.row.created_at + SESSION_TTL,
        r.purge_before == r.row.created_at,
{
    open_session(generate_secret(), model::now())
}

/// Whether one of the stored sessions admits a token at an instant.
pub fn session_is_valid(rows: &Vec<Session>, token: &str, now_ts: i64) -> (r: bool)
    ensures
        r == admitted(rows@, token@, now_ts as int),
{
    let hash = hash_secret(token);
    let mut i: usize = 0;
    while i < rows.len()
        invariant
            i <= rows@.len(),
            hash@ == secret_hash(token@),
            forall|k: int| 0 <= k < i ==> !admits(#[trigger] rows@[k], token@, now_ts as int),
        decreases rows@.len() - i,
    {
        if text::same(rows[i].token_hash.as_str(), hash.as_str()) && rows[i].expires_at > now_ts {
            assert(admits(rows@[i as int], token@, now_ts as int));
            return true;
        }
        i = i + 1;
    }
    false
}

// ----------------------------------------------------------------- cookies

/// The session's token among `name=value` pairs: the first under its name.
pub open spec fn token_among(pairs: Seq<Seq<char>>) -> Option<Seq<char>>
    decreases pairs.len(),
{
    if pairs.len() == 0 {
        None
    } else {
        match text::cut(pairs[0], '=') {
            Some((name, value)) => if text::trimmed(name) == SESSION_COOKIE@ {
                Some(text::trimmed(value))
            } else {
                token_among(pairs.skip(1))
            },
            None => token_among(pairs.skip(1)),
        }
    }
}

/// The session's token in a `Cookie` header.
pub open spec fn token_in(cookies: Option<Seq<char>>) -> Option<Seq<char>> {
    match cookies {
        None => None,
        Some(cookies) => token_among(text::pieces(cookies, ';')),
    }
}

/// Read our session cookie out of the request's `Cookie` header.
pub fn token_from_headers(cookies: Option<&str>) -> (r: Option<String>)
    ensures
        outside::text_of(r) == token_in(schedule::chars(cookies)),
{
    let header = match cookies {
        Some(header) => header,
        None => {
            return None;
        },
    };
    let pairs = text::split_on(header, ';');
    let ghost all = text::views(pairs@);
    let mut i: usize = 0;
    assert(all.skip(0) =~= all);
    while i < pairs.len()
        invariant
            i <= pairs@.len(),
            all == text::views(pairs@),
            token_among(all) == token_in(schedule::chars(cookies)),
            token_among(all) == token_among(all.skip(i as int)),
        decreases pairs@.len() - i,
    {
        assert(all.skip(i as int)[0] == pairs@[i as int]@);
        assert(all.skip(i as int).skip(1) =~= all.skip(i + 1));
        if let Some((name, value)) = text::split_once(pairs[i].as_str(), '=') {
            if text::same(text::trim(name.as_str()).as_str(), SESSION_COOKIE) {
                return Some(text::trim(value.as_str()));
            }
        }
        i = i + 1;
    }
    None
}

/// The cookie that carries a session's token.
pub open spec fn cookie_for(token: Seq<char>, site_url: Seq<char>) -> Seq<char> {
    SESSION_COOKIE@ + "="@ + token + "; Path=/; HttpOnly; SameSite=Lax; Max-Age="@ + text::decimal(
        SESSION_TTL as int,
    ) + if text::occurs_at(site_url, "https://"@, 0) {
        "; Secure"@
    } else {
        ""@
    }
}

/// The cookie that carries a session's token. `Secure` is set only for https
/// deployments: otherwise a local http install would silently drop the cookie
/// and never log anyone in.
pub fn session_cookie(token: &str, site_url: &str) -> (r: String)
    ensures
        r@ == cookie_for(token@, site_url@),
{
    let mut r = SESSION_COOKIE.to_owned();
    r.append("=");
    r.append(token);
    r.append("; Path=/; HttpOnly; SameSite=Lax; Max-Age=");
    text::push_int(&mut r, SESSION_TTL);
    if text::starts_with(site_url, "https://") {
        r.append("; Secure");
    } else {
        r.append("");
    }
    r
}

/// The cookie that takes a session's token back.
pub fn cleared_cookie() -> (r: String)
    ensures
        r@ == SESSION_COOKIE@ + "=; Path=/; HttpOnly; SameSite=Lax; Max-Age=0"@,
{
    let mut r = SESSION_COOKIE.to_owned();
    r.append("=; Path=/; HttpOnly; SameSite=Lax; Max-Age=0");
    r
}

// -------------------------------------------------------------------- gate

/// What a request for a page that shows or changes data meets.
#[derive(Debug, Clone, Copy, PartialEq, Eq, Structural)]
pub enum Access {
    Allowed,
    /// No session: sign in first.
    SignIn,
    /// No password yet: refuse to serve an unprotected admin UI.
    SetupRequired,
    /// The settings cannot be read.
    Failed,
}

/// What a request meets, given whether a password is set, if that could be
/// read, the token that it carries and the sessions that were found for it.
pub open spec fn access(
    password_is_set: Option<bool>,
    token: Option<Seq<char>>,
    rows: Seq<Session>,
    now: int,
) -> Access {
    match password_is_set {
        None => Access::Failed,
        Some(false) => Access::SetupRequired,
        Some(true) => match token {
            Some(token) if admitted(rows, token, now) => Access::Allowed,
            _ => Access::SignIn,
        },
    }
}

/// Gate for every page that shows or changes data.
///
/// SameSite=Lax on the session cookie is what keeps form POSTs from being
/// forged cross-site: browsers withhold the cookie on cross-origin POSTs, so
/// an unauthenticated request lands here and is redirected.
pub fn require_auth(
    password_is_set: Option<bool>,
    token: Option<&str>,
    rows: &Vec<Session>,
    now_ts: i64,
) -> (r: Access)
    ensures
        r == access(password_is_set, schedule::chars(token), rows@, now_ts as int),
{
    match password_is_set {
        None => Access::Failed,
        Some(false) => Access::SetupRequired,
        Some(true) => match token {
            Some(token) => if session_is_valid(rows, token, now_ts) {
                Access::Allowed
            } else {
                Access::SignIn
            },
            None => Access::SignIn,
        },
    }
}

impl Access {
    /// What a request is answered that may not pass.
    pub open spec fn answer(self) -> Option<web::Answer> {
        match self {
            Access::Allowed => None,
            Access::SignIn => Some(web::see_other("/login"@)),
            Access::SetupRequired => Some(
                web::plain(
                    503,
                    "canari has no password yet.\n\nSet one with:  canari admin set-password\n"@,
                ),
            ),
            Access::Failed => Some(web::bare(500)),
        }
    }

    /// What a request is answered that may not pass.
    pub fn refusal(self) -> (r: Option<Reply>)
        ensures
            r is None == self.answer() is None,
            r matches Some(reply) ==> self.answer() == Some(reply@),
    {
        match self {
            Access::Allowed => None,
            Access::SignIn => Some(Reply::see_other("/login".to_owned())),
            Access::SetupRequired => Some(
                Reply::plain(
                    503,
                    "canari has no password yet.\n\nSet one with:  canari admin set-password\n",
                ),
            ),
            Access::Failed => Some(Reply::bare(500)),
        }
    }
}

// -------------------------------------------------------------------- laws

/// Without a password nobody gets in, whatever the request carries.
pub proof fn law_no_password_no_access(token: Option<Seq<char>>, rows: Seq<Session>, now: int)
    ensures
        access(Some(false), token, rows, now) == Access::SetupRequired,
        access(None, token, rows, now) == Access::Failed,
{
}

/// Nobody gets in without a session, and changing the password, which drops
/// every session, signs everybody out.
pub proof fn law_no_session_no_access(
    password_is_set: Option<bool>,
    token: Option<Seq<char>>,
    now: int,
)
    ensures
        access(password_is_set, token, Seq::empty(), now) != Access::Allowed,
        forall|rows: Seq<Session>|
            #[trigger] access(password_is_set, None, rows, now) != Access::Allowed,
{
}

/// A session admits its token from the moment it is opened until it expires,
/// and not after, when it is the only one stored.
pub proof fn law_session_lasts_its_ttl(row: Session, token: Seq<char>, ts: int, now: int)
    requires
        row.token_hash@ == secret_hash(token),
        row.expires_at == ts + SESSION_TTL,
    ensures
        admitted(seq![row], token, now) <==> now < ts + SESSION_TTL,
{
    let rows = seq![row];
    assert(rows[0] == row);
}

/// Dropping the sessions stored for a token keeps it out.
pub proof fn law_destroyed_session_is_out(rows: Seq<Session>, token: Seq<char>, now: int)
    requires
        forall|i: int| 0 <= i < rows.len() ==> (#[trigger] rows[i]).token_hash@ != secret_hash(token),
    ensures
        !admitted(rows, token, now),
{
}

/// Cleaning up sessions that expired before an instant takes nobody out from
/// that instant on.
pub proof fn law_purge_takes_nobody_out(row: Session, purge_before: int, token: Seq<char>, now: int)
    requires
        row.expires_at < purge_before,
        purge_before <= now,
    ensures
        !admits(row, token, now),
{
}

/// A text between whose ends there is nothing to trim.
proof fn lemma_nothing_to_trim(s: Seq<char>)
    requires
        s.len() > 0,
        !text::is_white(s[0]),
        !text::is_white(s.last()),
    ensures
        text::trimmed(s) == s,
{
}

/// The pair of the session cookie gives its token, whatever pairs follow; it
/// may have a space before it.
proof fn lemma_own_pair(pair: Seq<char>, token: Seq<char>, rest: Seq<Seq<char>>)
    requires
        text::trimmed(token) == token,
        pair == SESSION_COOKIE@ + "="@ + token || pair == " "@ + SESSION_COOKIE@ + "="@ + token,
    ensures
        token_among(seq![pair] + rest) == Some(token),
{
    reveal_strlit("canari_session");
    reveal_strlit("=");
    reveal_strlit(" ");
    let at = pair.len() - token.len() - 1;
    let name = pair.take(at);
    text::lemma_index_of(pair, '=');
    assert(pair[at] == '=');
    assert(text::index_of(pair, '=') == at);
    assert(pair.skip(at + 1) =~= token);
    if pair == SESSION_COOKIE@ + "="@ + token {
        assert(name =~= SESSION_COOKIE@);
    } else {
        assert(name.skip(1) =~= SESSION_COOKIE@);
        assert(text::trim_start(name) == text::trim_start(name.skip(1)));
    }
    lemma_nothing_to_trim(SESSION_COOKIE@);
    assert((seq![pair] + rest)[0] == pair);
}

/// Pairs that do not name the session's token leave it to those that follow.
proof fn lemma_other_pairs(before: Seq<Seq<char>>, after: Seq<Seq<char>>)
    requires
        token_among(before) is None,
    ensures
        token_among(before + after) == token_among(after),
    decreases before.len(),
{
    if before.len() == 0 {
        assert(before + after =~= after);
    } else {
        lemma_other_pairs(before.skip(1), after);
        assert((before + after)[0] == before[0]);
        assert((before + after).skip(1) =~= before.skip(1) + after);
    }
}

/// The token in a session cookie is read back from the header in which a
/// browser returns it, when it is one that can stand in a cookie: alone,
/// behind other cookies and before others.
pub proof fn law_cookie_reads_back(token: Seq<char>, before: Seq<char>, after: Seq<char>)
    requires
        text::trimmed(token) == token,
        forall|i: int| 0 <= i < token.len() ==> #[trigger] token[i] != ';',
        token_in(Some(before)) is None,
    ensures
        ({
            let cookie = SESSION_COOKIE@ + "="@ + token;
            &&& token_in(Some(cookie)) == Some(token)
            &&& token_in(Some(cookie + ";"@ + after)) == Some(token)
            &&& token_in(Some(before + "; "@ + cookie)) == Some(token)
            &&& token_in(Some(before + "; "@ + cookie + ";"@ + after)) == Some(token)
        }),
{
    reveal_strlit("canari_session");
    reveal_strlit("=");
    reveal_strlit(" ");
    reveal_strlit(";");
    reveal_strlit("; ");
    let cookie = SESSION_COOKIE@ + "="@ + token;
    let spaced = " "@ + SESSION_COOKIE@ + "="@ + token;
    let none = Seq::<Seq<char>>::empty();
    let others = text::pieces(before, ';');
    let rest = text::pieces(after, ';');
    lemma_whole_piece(cookie);
    lemma_whole_piece(spaced);
    assert(seq![cookie] + none =~= seq![cookie]);
    assert(seq![spaced] + none =~= seq![spaced]);
    lemma_own_pair(cookie, token, none);
    lemma_own_pair(cookie, token, rest);
    lemma_own_pair(spaced, token, none);
    lemma_own_pair(spaced, token, rest);
    text::lemma_pieces_of_both(cookie, after, ';');
    assert(cookie + seq![';'] + after =~= cookie + ";"@ + after);
    text::lemma_pieces_of_both(spaced, after, ';');
    text::lemma_pieces_of_both(before, spaced, ';');
    assert(before + seq![';'] + spaced =~= before + "; "@ + cookie);
    lemma_other_pairs(others, seq![spaced]);
    text::lemma_pieces_of_both(before, spaced + seq![';'] + after, ';');
    assert(before + seq![';'] + (spaced + seq![';'] + after) =~= before + "; "@ + cookie + ";"@
        + after);
    lemma_other_pairs(others, seq![spaced] + rest);
}

/// A text without a semicolon is one piece.
proof fn lemma_whole_piece(s: Seq<char>)
    requires
        forall|i: int| 0 <= i < s.len() ==> #[trigger] s[i] != ';',
    ensures
        text::pieces(s, ';') == seq![s],
{
    text::lemma_index_of(s, ';');
}

/// The text of a generated secret can stand in a cookie, and in an address.
pub proof fn law_secret_is_url_safe(bytes: Seq<u8>)
    requires
        bytes.len() > 0,
    ensures
        forall|i: int|
            0 <= i < outside::base64_url(bytes).len() ==> {
                let c = #[trigger] outside::base64_url(bytes)[i];
                'A' <= c <= 'Z' || 'a' <= c <= 'z' || '0' <= c <= '9' || c == '-' || c == '_'
            },
        text::trimmed(outside::base64_url(bytes)) == outside::base64_url(bytes),
{
    let s = outside::base64_url(bytes);
    assert forall|i: int| 0 <= i < s.len() implies {
        let c = #[trigger] s[i];
        'A' <= c <= 'Z' || 'a' <= c <= 'z' || '0' <= c <= '9' || c == '-' || c == '_'
    } by {
        let n = outside::sextet(bytes, i);
        assert(0 <= n < 64);
        assert(s[i] == outside::base64_char(n, '-', '_'));
    }
    assert(s.len() > 0);
    let first = s[0];
    let last = s[s.len() - 1];
    lemma_nothing_to_trim(s);
}

/// Signing in gives access: the cookie of a session that was just opened is
/// read back from the browser's header, behind whatever other cookies it holds,
/// and admitted until the session expires.
pub proof fn law_signing_in_gives_access(
    bytes: Seq<u8>,
    before: Seq<char>,
    row: Session,
    ts: int,
    now: int,
)
    requires
        bytes.len() == 32,
        token_in(Some(before)) is None,
        row.token_hash@ == secret_hash(outside::base64_url(bytes)),
        row.expires_at == ts + SESSION_TTL,
        now < ts + SESSION_TTL,
    ensures
        access(
            Some(true),
            token_in(Some(SESSION_COOKIE@ + "="@ + outside::base64_url(bytes))),
            seq![row],
            now,
        ) == Access::Allowed,
        access(
            Some(true),
            token_in(Some(before + "; "@ + (SESSION_COOKIE@ + "="@ + outside::base64_url(bytes)))),
            seq![row],
            now,
        ) == Access::Allowed,
{
    let token = outside::base64_url(bytes);
    law_secret_is_url_safe(bytes);
    law_cookie_reads_back(token, before, Seq::empty());
    law_session_lasts_its_ttl(row, token, ts, now);
}

/// Who gets in: without a password everyone is sent to set one up, and with one
/// whoever shows the token of a session that has not expired.
pub proof fn law_who_gets_in(
    password_is_set: Option<bool>,
    token: Option<Seq<char>>,
    rows: Seq<Session>,
    now: int,
)
    ensures
        password_is_set is None ==> access(password_is_set, token, rows, now) == Access::Failed,
        password_is_set == Some(false) ==> access(password_is_set, token, rows, now)
            == Access::SetupRequired,
        password_is_set == Some(true) && token is None ==> access(password_is_set, token, rows, now)
            == Access::SignIn,
        password_is_set == Some(true) && token is Some ==> access(password_is_set, token, rows, now)
            == if exists|i: int|
            0 <= i < rows.len() && (#[trigger] rows[i]).token_hash@ == outside::base64_url(
                outside::sha256(encode_utf8(token->0)),
            ) && rows[i].expires_at > now {
            Access::Allowed
        } else {
            Access::SignIn
        },
{
    if token is Some {
        let hash = outside::base64_url(outside::sha256(encode_utf8(token->0)));
        if exists|i: int|
            0 <= i < rows.len() && (#[trigger] rows[i]).token_hash@ == hash && rows[i].expires_at
                > now {
            let i = choose|i: int|
                0 <= i < rows.len() && (#[trigger] rows[i]).token_hash@ == hash
                    && rows[i].expires_at > now;
            assert(admits(rows[i], token->0, now));
        }
        if admitted(rows, token->0, now) {
            let i = choose|i: int| 0 <= i < rows.len() && admits(#[trigger] rows[i], token->0, now);
            assert(rows[i].token_hash@ == hash);
        }
    }
}

/// What those who do not get in are answered.
pub proof fn law_how_they_are_turned_away()
    ensures
        Access::Allowed.answer() is None,
        Access::SignIn.answer() is Some,
        Access::SignIn.answer()->0.status == 303,
        Access::SignIn.answer()->0.location == Some("/login"@),
        Access::SetupRequired.answer() is Some,
        Access::SetupRequired.answer()->0.status == 503,
        Access::SetupRequired.answer()->0.body
            == "canari has no password yet.\n\nSet one with:  canari admin set-password\n"@,
        Access::Failed.answer() is Some,
        Access::Failed.answer()->0.status == 500,
{
}

/// A password lets in exactly where one is stored that argon2 can read and finds
/// to match.
pub proof fn law_which_password_lets_in(stored: Option<Seq<char>>, plain: Seq<char>)
    ensures
        stored is None ==> !lets_in(stored, plain),
        stored matches Some(hash) ==> (lets_in(stored, plain) <==> outside::is_phc(hash)
            && outside::phc_accepts(hash, encode_utf8(plain))),
{
}

/// A password of fewer than eight bytes is refused, and any other is hashed.
pub proof fn law_short_passwords_are_refused(plain: Seq<char>, salt: Seq<u8>)
    ensures
        encode_utf8(plain).len() < 8 ==> password_hash(plain, salt) == Err::<Seq<char>, Seq<char>>(
            "password must be at least 8 characters"@,
        ),
        encode_utf8(plain).len() >= 8 ==> match outside::phc_hash(encode_utf8(plain), salt) {
            Ok(hash) => password_hash(plain, salt) == Ok::<Seq<char>, Seq<char>>(hash),
            Err(why) => password_hash(plain, salt) == Err::<Seq<char>, Seq<char>>(
                "hashing password: "@ + why,
            ),
        },
{
}

/// A line that was typed is read without the breaks that end it, and otherwise as
/// it is.
pub proof fn law_typed_line_is_read(typed: Seq<char>, breaks: Seq<char>)
    requires
        typed.len() > 0 ==> typed.last() != '\r' && typed.last() != '\n',
        forall|i: int| 0 <= i < breaks.len() ==> #[trigger] breaks[i] == '\r' || breaks[i] == '\n',
    ensures
        without_breaks(typed + breaks) == typed,
    decreases breaks.len(),
{
    let whole = typed + breaks;
    if breaks.len() > 0 {
        let fewer = breaks.drop_last();
        assert forall|i: int| 0 <= i < fewer.len() implies #[trigger] fewer[i] == '\r' || fewer[i]
            == '\n' by {
            assert(fewer[i] == breaks[i]);
        }
        law_typed_line_is_read(typed, fewer);
        assert(whole.last() == breaks.last());
        assert(whole.drop_last() =~= typed + fewer);
    } else {
        assert(whole =~= typed);
    }
}

/// A session cookie carries its token, is kept from scripts and other sites, lasts
/// as long as the session, and keeps to HTTPS where the site does.
pub proof fn law_what_a_cookie_says(token: Seq<char>, site: Seq<char>)
    ensures
        ({
            let cookie = "canari_session="@ + token
                + "; Path=/; HttpOnly; SameSite=Lax; Max-Age=2592000"@;
            if site.len() >= 8 && site.take(8) == "https://"@ {
                cookie_for(token, site) == cookie + "; Secure"@
            } else {
                cookie_for(token, site) == cookie
            }
        }),
{
    reveal_strlit("canari_session=");
    reveal_strlit("canari_session");
    reveal_strlit("=");
    reveal_strlit("https://");
    reveal_strlit("");
    reveal_strlit("; Path=/; HttpOnly; SameSite=Lax; Max-Age=2592000");
    reveal_strlit("; Path=/; HttpOnly; SameSite=Lax; Max-Age=");
    assert(text::decimal(2592000) =~= seq!['2', '5', '9', '2', '0', '0', '0']) by {
        reveal_with_fuel(text::decimal_nat, 8);
    }
    assert(SESSION_COOKIE@ + "="@ =~= "canari_session="@);
    let cookie = "canari_session="@ + token + "; Path=/; HttpOnly; SameSite=Lax; Max-Age=2592000"@;
    if site.len() >= 8 {
        assert(site.subrange(0, 8) =~= site.take(8));
    }
    assert(SESSION_COOKIE@ + "="@ + token + "; Path=/; HttpOnly; SameSite=Lax; Max-Age="@
        + text::decimal(2592000) =~= cookie);
    assert(cookie + ""@ =~= cookie);
}

/// A session lasts thirty days.
pub proof fn law_sessions_last_thirty_days()
    ensures
        SESSION_TTL == 30 * 24 * 3600,
{
}

/// A result is told by its text, or by the words of its refusal.
pub proof fn law_results_are_told(s: String, error: Error)
    ensures
        texts(Ok(s)) == Ok::<Seq<char>, Seq<char>>(s@),
        texts(Err(error)) == Err::<Seq<char>, Seq<char>>(error.message@),
{
}

} // verus!
