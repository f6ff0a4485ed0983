//! The sign-in server's pure parts: the Discord authorize URL, the
//! redirect URI, request validation, and the wire shapes of the friends
//! and groups API.

pub mod friends;
pub mod groups;
pub mod pending;

use vstd::prelude::*;

use crate::text::{chars_of, string_of_range, trim_spec, trim_str};

verus! {

/// A byte the `application/x-www-form-urlencoded` serializer keeps as is:
/// `*`, `-`, `.`, `_`, ASCII digits and letters.
pub open spec fn form_unchanged(b: u8) -> bool {
    b == 42 || b == 45 || b == 46 || (48 <= b <= 57) || (65 <= b <= 90) || b == 95 || (97 <= b <= 122)
}

/// The uppercase hex digit of `n < 16`.
pub open spec fn upper_hex_digit(n: int) -> char {
    if n < 10 {
        (48 + n) as char
    } else {
        (55 + n) as char
    }
}

/// The form-urlencoded serialization of a byte string: kept bytes as
/// their characters, space as `+`, everything else as `%XX` (uppercase).
pub open spec fn form_urlencoded(bytes: Seq<u8>) -> Seq<char>
    decreases bytes.len(),
{
    if bytes.len() == 0 {
        Seq::empty()
    } else {
        let b = bytes.last();
        form_urlencoded(bytes.drop_last()) + if form_unchanged(b) {
            seq![b as char]
        } else if b == 32 {
            seq!['+']
        } else {
            seq!['%', upper_hex_digit(b as int / 16), upper_hex_digit(b as int % 16)]
        }
    }
}

/// Form-urlencode `s` (`url::form_urlencoded::byte_serialize` over its
/// UTF-8 bytes, collected): the serialization [`form_urlencoded`] states.
#[verifier::external_body]
fn urlencode(s: &str) -> (r: String)
    ensures
        r@ == form_urlencoded(vstd::utf8::encode_utf8(s@)),
{
    url::form_urlencoded::byte_serialize(s.as_bytes()).collect()
}

/// The Discord authorize URL for the `identify` scope.
pub fn authorize_url(client_id: &str, redirect_uri: &str, state: &str) -> (r: String)
    ensures
        r@ == "https://discord.com/oauth2/authorize?response_type=code&client_id="@ + client_id@
            + "&scope=identify&state="@ + state@ + "&redirect_uri="@ + form_urlencoded(
            vstd::utf8::encode_utf8(redirect_uri@),
        ),
{
    let mut out = "https://discord.com/oauth2/authorize?response_type=code&client_id=".to_owned();
    out.append(client_id);
    out.append("&scope=identify&state=");
    out.append(state);
    out.append("&redirect_uri=");
    out.append(urlencode(redirect_uri).as_str());
    out
}

/// `s` without any trailing `c`.
pub open spec fn trim_end_char(s: Seq<char>, c: char) -> Seq<char>
    decreases s.len(),
{
    if s.len() > 0 && s.last() == c {
        trim_end_char(s.drop_last(), c)
    } else {
        s
    }
}

/// The server's public URL and Discord client settings.
pub struct Config {
    pub public_url: String,
    pub discord_client_id: String,
    pub discord_client_secret: String,
}

impl Config {
    /// The OAuth callback URL: the public URL (trailing slashes dropped)
    /// plus `/auth/discord/callback`.
    pub fn redirect_uri(&self) -> (r: String)
        ensures
            r@ == trim_end_char(self.public_url@, '/') + "/auth/discord/callback"@,
    {
        let v = chars_of(self.public_url.as_str());
        let mut end = v.len();
        assert(v@.take(v@.len() as int) =~= v@);
        while end > 0 && v[end - 1] == '/'
            invariant
                end <= v@.len(),
                trim_end_char(v@, '/') == trim_end_char(v@.take(end as int), '/'),
            decreases end,
        {
            assert(v@.take(end as int).drop_last() =~= v@.take(end - 1));
            end = end - 1;
        }
        assert(v@.take(0) =~= Seq::<char>::empty());
        let mut out = string_of_range(&v, 0, end);
        assert(v@.subrange(0, end as int) =~= v@.take(end as int));
        assert(v@.take(v@.len() as int) =~= v@);
        out.append("/auth/discord/callback");
        out
    }
}

/// A group name is acceptable: after trimming, 1 to 64 bytes of UTF-8.
pub open spec fn group_name_ok(name: Seq<char>) -> bool {
    let t = trim_spec(name);
    0 < vstd::utf8::encode_utf8(t).len() <= 64
}

/// The trimmed group name, or `None` when it is empty or over 64 bytes.
pub fn validate_group_name(name: &str) -> (r: Option<String>)
    ensures
        r is Some <==> group_name_ok(name@),
        r matches Some(t) ==> t@ == trim_spec(name@),
{
    let t = trim_str(name);
    let n = t.as_str().as_bytes().len();
    if n == 0 || n > 64 {
        None
    } else {
        Some(t)
    }
}

/// The Discord account behind a sign-in.
#[derive(Debug, Clone)]
pub struct DiscordUser {
    pub id: String,
    pub username: String,
    pub global_name: Option<String>,
    pub avatar: Option<String>,
}

impl DiscordUser {
    /// Discord's display name — `global_name` with the legacy `username` as
    /// fallback (bots and old accounts may lack a global name).
    pub fn display_name(&self) -> (r: &str)
        ensures
            r@ == match self.global_name {
                Some(g) => g@,
                None => self.username@,
            },
    {
        match &self.global_name {
            Some(g) => g.as_str(),
            None => self.username.as_str(),
        }
    }
}

} // verus!
