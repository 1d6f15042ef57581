//! Connection profiles: the saved list (metadata only — secrets live in
//! the OS keyring), and how a profile with its secret becomes the
//! configuration of a connection. Only encrypted connections are made.

use vstd::prelude::*;

use crate::error::string_from;
use crate::ftp::{FtpConfig, FtpSecurity};
use crate::objstore::{AzureConfig, GcsConfig, S3Config};
use crate::ssh::{host_key_accepted_spec, SshAuth, SshConfig};
use crate::text::{decimal, has_prefix, is_word, push_char, push_decimal, push_str, starts_with_str};
use crate::webdav::WebdavConfig;

verus! {

#[derive(Debug, Clone, Copy, PartialEq, Eq, Structural)]
pub enum Protocol {
    Sftp,
    /// Only for old profiles: connects with AUTH TLS, plain FTP is gone.
    Ftp,
    Ftps,
    FtpsImplicit,
    Webdav,
    S3,
    Azure,
    Gcs,
}

#[derive(Debug)]
pub struct Profile {
    /// Empty for new profiles — assigned when saving.
    pub id: String,
    pub name: String,
    pub protocol: Protocol,
    pub host: String,
    pub port: u16,
    pub user: String,
    /// SFTP: key file (instead of a password).
    pub key_file: String,
    /// SFTP: the host key remembered on first use.
    pub host_key: String,
    /// WebDAV: base URL of the DAV root.
    pub base_url: String,
    /// Azure: the storage account.
    pub account: String,
    /// S3: endpoint (empty for AWS); also region, bucket, access key and
    /// path style. `bucket` is the container for Azure and the bucket for
    /// GCS.
    pub endpoint: String,
    pub region: String,
    pub bucket: String,
    pub access_key: String,
    pub path_style: bool,
    /// FTPS, WebDAV, S3: accept self-signed certificates.
    pub accept_invalid_certs: bool,
}

pub struct ProfileView {
    pub id: Seq<char>,
    pub name: Seq<char>,
    pub protocol: Protocol,
    pub host: Seq<char>,
    pub port: u16,
    pub user: Seq<char>,
    pub key_file: Seq<char>,
    pub host_key: Seq<char>,
    pub base_url: Seq<char>,
    pub account: Seq<char>,
    pub endpoint: Seq<char>,
    pub region: Seq<char>,
    pub bucket: Seq<char>,
    pub access_key: Seq<char>,
    pub path_style: bool,
    pub accept_invalid_certs: bool,
}

impl View for Profile {
    type V = ProfileView;

    open spec fn view(&self) -> ProfileView {
        ProfileView {
            id: self.id@,
            name: self.name@,
            protocol: self.protocol,
            host: self.host@,
            port: self.port,
            user: self.user@,
            key_file: self.key_file@,
            host_key: self.host_key@,
            base_url: self.base_url@,
            account: self.account@,
            endpoint: self.endpoint@,
            region: self.region@,
            bucket: self.bucket@,
            access_key: self.access_key@,
            path_style: self.path_style,
            accept_invalid_certs: self.accept_invalid_certs,
        }
    }
}

impl Clone for Profile {
    fn clone(&self) -> (r: Self)
        ensures
            r@ == self@,
    {
        Profile {
            id: self.id.clone(),
            name: self.name.clone(),
            protocol: self.protocol,
            host: self.host.clone(),
            port: self.port,
            user: self.user.clone(),
            key_file: self.key_file.clone(),
            host_key: self.host_key.clone(),
            base_url: self.base_url.clone(),
            account: self.account.clone(),
            endpoint: self.endpoint.clone(),
            region: self.region.clone(),
            bucket: self.bucket.clone(),
            access_key: self.access_key.clone(),
            path_style: self.path_style,
            accept_invalid_certs: self.accept_invalid_certs,
        }
    }
}

pub open spec fn profiles_view(v: Seq<Profile>) -> Seq<ProfileView> {
    v.map_values(|p: Profile| p@)
}

/// The result of connecting a profile.
pub struct ConnectResult {
    pub conn: u32,
    pub label: String,
}

// ---------------------------------------------------------------------
// The saved list
// ---------------------------------------------------------------------

/// Position of the first profile with `id`.
pub open spec fn first_with_id(ps: Seq<ProfileView>, id: Seq<char>) -> Option<int>
    decreases ps.len(),
{
    if ps.len() == 0 {
        None
    } else if ps[0].id == id {
        Some(0)
    } else {
        match first_with_id(ps.drop_first(), id) {
            Some(i) => Some(i + 1),
            None => None,
        }
    }
}

/// Saving: the first profile with the same id is replaced, otherwise the
/// profile is appended.
pub open spec fn upsert_spec(ps: Seq<ProfileView>, p: ProfileView) -> Seq<ProfileView> {
    match first_with_id(ps, p.id) {
        Some(i) => ps.update(i, p),
        None => ps.push(p),
    }
}

/// Deleting: every profile with `id` goes, the rest keep their order.
pub open spec fn remove_spec(ps: Seq<ProfileView>, id: Seq<char>) -> Seq<ProfileView>
    decreases ps.len(),
{
    if ps.len() == 0 {
        Seq::empty()
    } else {
        let before = remove_spec(ps.drop_last(), id);
        if ps.last().id == id {
            before
        } else {
            before.push(ps.last())
        }
    }
}

pub proof fn lemma_first_with_id(ps: Seq<ProfileView>, id: Seq<char>)
    ensures
        match first_with_id(ps, id) {
            Some(i) => 0 <= i < ps.len() && ps[i].id == id && forall|j: int|
                0 <= j < i ==> ps[j].id != id,
            None => forall|j: int| 0 <= j < ps.len() ==> ps[j].id != id,
        },
    decreases ps.len(),
{
    if ps.len() > 0 && ps[0].id != id {
        lemma_first_with_id(ps.drop_first(), id);
        assert forall|j: int| 1 <= j < ps.len() implies ps[j] == ps.drop_first()[j - 1] by {}
    }
}

proof fn lemma_first_with_id_unique(ps: Seq<ProfileView>, id: Seq<char>, i: int)
    requires
        0 <= i < ps.len(),
        ps[i].id == id,
        forall|j: int| 0 <= j < i ==> ps[j].id != id,
    ensures
        first_with_id(ps, id) == Some(i),
{
    lemma_first_with_id(ps, id);
    match first_with_id(ps, id) {
        Some(k) => {
            if k < i {
            } else if k > i {
            }
        },
        None => {},
    }
}

/// Position of the first profile with `id`.
pub fn find_profile(profiles: &Vec<Profile>, id: &str) -> (r: Option<usize>)
    ensures
        match r {
            Some(i) => first_with_id(profiles_view(profiles@), id@) == Some(i as int),
            None => first_with_id(profiles_view(profiles@), id@) is None,
        },
{
    let ghost ps = profiles_view(profiles@);
    let mut i: usize = 0;
    while i < profiles.len()
        invariant
            i <= profiles@.len(),
            ps == profiles_view(profiles@),
            forall|j: int| 0 <= j < i ==> ps[j].id != id@,
        decreases profiles@.len() - i,
    {
        if is_word(profiles[i].id.as_str(), id) {
            proof {
                lemma_first_with_id_unique(ps, id@, i as int);
            }
            return Some(i);
        }
        i = i + 1;
    }
    proof {
        lemma_first_with_id(ps, id@);
        match first_with_id(ps, id@) {
            Some(k) => {
                assert(ps[k].id != id@);
            },
            None => {},
        }
    }
    None
}

/// A new profile gets the id `p<millis>` from the current time in
/// milliseconds; a saved one keeps its id.
pub fn assign_id(profile: &mut Profile, millis: u128)
    ensures
        final(profile)@ == (if old(profile)@.id.len() == 0 {
            ProfileView { id: seq!['p'] + decimal(millis as nat), ..old(profile)@ }
        } else {
            old(profile)@
        }),
{
    if profile.id.as_str().is_empty() {
        let mut id = String::new();
        push_char(&mut id, 'p');
        push_decimal(&mut id, millis);
        profile.id = id;
    }
}

/// The secret to store: only a non-empty one.
pub fn secret_to_store(secret: Option<String>) -> (r: Option<String>)
    ensures
        match secret {
            Some(s) => if s@.len() > 0 {
                r matches Some(t) && t@ == s@
            } else {
                r is None
            },
            None => r is None,
        },
{
    match secret {
        Some(s) => if s.as_str().is_empty() {
            None
        } else {
            Some(s)
        },
        None => None,
    }
}

/// Saves `profile` into the list: it replaces the first profile with the
/// same id, or is appended.
pub fn upsert_profile(profiles: &mut Vec<Profile>, profile: &Profile)
    ensures
        profiles_view(final(profiles)@) == upsert_spec(profiles_view(old(profiles)@), profile@),
{
    let ghost before = profiles_view(profiles@);
    proof {
        lemma_first_with_id(before, profile@.id);
    }
    match find_profile(profiles, profile.id.as_str()) {
        Some(i) => {
            profiles.set(i, profile.clone());
            proof {
                assert(profiles_view(profiles@) =~= before.update(i as int, profile@));
            }
        },
        None => {
            profiles.push(profile.clone());
            proof {
                assert(profiles_view(profiles@) =~= before.push(profile@));
            }
        },
    }
}

/// Deletes every profile with `id`, keeping the others in order.
pub fn remove_profile(profiles: &mut Vec<Profile>, id: &str)
    ensures
        profiles_view(final(profiles)@) == remove_spec(profiles_view(old(profiles)@), id@),
{
    let ghost orig = profiles@;
    let ghost ov = profiles_view(orig);
    let total = profiles.len();
    let mut kept: Vec<Profile> = Vec::new();
    let mut i: usize = 0;
    while profiles.len() > 0
        invariant
            i + profiles@.len() == orig.len(),
            orig.len() == total,
            profiles@ == orig.subrange(i as int, orig.len() as int),
            ov == profiles_view(orig),
            profiles_view(kept@) == remove_spec(ov.take(i as int), id@),
        decreases profiles@.len(),
    {
        let p = profiles.remove(0);
        proof {
            assert(p == orig[i as int]);
            assert(profiles@ =~= orig.subrange(i + 1, orig.len() as int));
            assert(ov.take(i + 1).drop_last() =~= ov.take(i as int));
            assert(ov.take(i + 1).last() == p@);
        }
        if !is_word(p.id.as_str(), id) {
            let ghost before = kept@;
            kept.push(p);
            proof {
                assert(profiles_view(kept@) =~= profiles_view(before).push(p@));
            }
        }
        i = i + 1;
    }
    proof {
        assert(ov.take(i as int) =~= ov);
    }
    *profiles = kept;
}

/// Trust on first use for SFTP: a profile without a host key remembers the
/// key seen now (and then needs to be stored again).
pub open spec fn remember_spec(p: ProfileView, seen: Seq<char>) -> ProfileView {
    if p.host_key.len() == 0 {
        ProfileView { host_key: seen, ..p }
    } else {
        p
    }
}

pub fn remember_host_key(profile: &mut Profile, seen: &str) -> (changed: bool)
    ensures
        changed == (old(profile)@.host_key.len() == 0),
        final(profile)@ == remember_spec(old(profile)@, seen@),
{
    if profile.host_key.as_str().is_empty() {
        profile.host_key = string_from(seen);
        true
    } else {
        false
    }
}

// ---------------------------------------------------------------------
// From a profile to a connection
// ---------------------------------------------------------------------

/// The configuration of the connection a profile asks for.
pub enum ConnectPlan {
    Sftp(SshConfig),
    Ftp(FtpConfig),
    Webdav(WebdavConfig),
    S3(S3Config),
    Azure(AzureConfig),
    Gcs(GcsConfig),
}

pub open spec fn opt_view(o: Option<String>) -> Option<Seq<char>> {
    match o {
        Some(s) => Some(s@),
        None => None,
    }
}

/// `Some(s)` for a non-empty `s`.
pub open spec fn non_empty(s: Seq<char>) -> Option<Seq<char>> {
    if s.len() > 0 {
        Some(s)
    } else {
        None
    }
}

pub open spec fn port_or(port: u16, default: u16) -> u16 {
    if port == 0 {
        default
    } else {
        port
    }
}

pub open spec fn is_ftp(p: Protocol) -> bool {
    p == Protocol::Ftp || p == Protocol::Ftps || p == Protocol::FtpsImplicit
}

/// Why a profile cannot be connected: unencrypted endpoints are refused.
pub open spec fn plan_error(p: ProfileView) -> Option<Seq<char>> {
    if p.protocol == Protocol::Webdav && !has_prefix(p.base_url, "https://"@) {
        Some("Nur https://-URLs — unverschlüsseltes WebDAV wird nicht unterstützt"@)
    } else if p.protocol == Protocol::S3 && p.endpoint.len() > 0 && !has_prefix(p.endpoint, "https://"@) {
        Some("Nur https://-Endpoints — unverschlüsselte Verbindungen sind deaktiviert"@)
    } else {
        None
    }
}

/// The configuration made for profile `p` with its secret.
pub open spec fn plan_matches(p: ProfileView, secret: Seq<char>, plan: ConnectPlan) -> bool {
    match plan {
        ConnectPlan::Sftp(c) => {
            &&& p.protocol == Protocol::Sftp
            &&& c.host@ == p.host
            &&& c.port == port_or(p.port, 22)
            &&& c.user@ == p.user
            &&& match c.auth {
                SshAuth::Password(pw) => p.key_file.len() == 0 && pw@ == secret,
                SshAuth::KeyFile { path, passphrase } => p.key_file.len() > 0 && path@ == p.key_file
                    && opt_view(passphrase) == non_empty(secret),
            }
            &&& opt_view(c.expected_host_key) == non_empty(p.host_key)
        },
        ConnectPlan::Ftp(c) => {
            let implicit = p.protocol == Protocol::FtpsImplicit;
            &&& is_ftp(p.protocol)
            &&& c.host@ == p.host
            &&& c.port == port_or(p.port, if implicit { 990 } else { 21 })
            &&& c.user@ == p.user
            &&& c.password@ == secret
            &&& c.security == (if implicit { FtpSecurity::ImplicitTls } else { FtpSecurity::ExplicitTls })
            &&& c.accept_invalid_certs == p.accept_invalid_certs
        },
        ConnectPlan::Webdav(c) => {
            &&& p.protocol == Protocol::Webdav
            &&& c.base_url@ == p.base_url
            &&& c.user@ == p.user
            &&& c.password@ == secret
            &&& c.accept_invalid_certs == p.accept_invalid_certs
        },
        ConnectPlan::S3(c) => {
            &&& p.protocol == Protocol::S3
            &&& opt_view(c.endpoint) == non_empty(p.endpoint)
            &&& c.region@ == (if p.region.len() == 0 { "us-east-1"@ } else { p.region })
            &&& c.bucket@ == p.bucket
            &&& c.access_key@ == p.access_key
            &&& c.secret_key@ == secret
            &&& c.path_style == p.path_style
            &&& c.accept_invalid_certs == p.accept_invalid_certs
        },
        ConnectPlan::Azure(c) => {
            &&& p.protocol == Protocol::Azure
            &&& c.account@ == p.account
            &&& c.container@ == p.bucket
            &&& c.access_key@ == secret
        },
        ConnectPlan::Gcs(c) => {
            &&& p.protocol == Protocol::Gcs
            &&& c.bucket@ == p.bucket
            &&& c.key_file@ == p.key_file
        },
    }
}

fn non_empty_exec(s: &str) -> (r: Option<String>)
    ensures
        opt_view(r) == non_empty(s@),
{
    if s.is_empty() {
        None
    } else {
        Some(string_from(s))
    }
}

/// How the profile `profile` with its `secret` is to be connected, or why
/// it cannot be.
pub fn plan_connection(profile: &Profile, secret: String) -> (r: Result<ConnectPlan, String>)
    ensures
        match r {
            Ok(plan) => plan_error(profile@) is None && plan_matches(profile@, secret@, plan),
            Err(msg) => plan_error(profile@) == Some(msg@),
        },
{
    match profile.protocol {
        Protocol::Sftp => {
            let auth = if profile.key_file.as_str().is_empty() {
                SshAuth::Password(secret)
            } else {
                SshAuth::KeyFile {
                    path: string_from(profile.key_file.as_str()),
                    passphrase: non_empty_exec(secret.as_str()),
                }
            };
            Ok(
                ConnectPlan::Sftp(
                    SshConfig {
                        host: string_from(profile.host.as_str()),
                        port: if profile.port == 0 { 22 } else { profile.port },
                        user: string_from(profile.user.as_str()),
                        auth,
                        expected_host_key: non_empty_exec(profile.host_key.as_str()),
                    },
                ),
            )
        },
        Protocol::Ftp | Protocol::Ftps | Protocol::FtpsImplicit => {
            let implicit = profile.protocol == Protocol::FtpsImplicit;
            let security = if implicit {
                FtpSecurity::ImplicitTls
            } else {
                FtpSecurity::ExplicitTls
            };
            let default_port: u16 = if implicit { 990 } else { 21 };
            Ok(
                ConnectPlan::Ftp(
                    FtpConfig {
                        host: string_from(profile.host.as_str()),
                        port: if profile.port == 0 { default_port } else { profile.port },
                        user: string_from(profile.user.as_str()),
                        password: secret,
                        security,
                        accept_invalid_certs: profile.accept_invalid_certs,
                    },
                ),
            )
        },
        Protocol::Webdav => {
            if !starts_with_str(profile.base_url.as_str(), "https://") {
                return Err(string_from("Nur https://-URLs — unverschlüsseltes WebDAV wird nicht unterstützt"));
            }
            Ok(
                ConnectPlan::Webdav(
                    WebdavConfig {
                        base_url: string_from(profile.base_url.as_str()),
                        user: string_from(profile.user.as_str()),
                        password: secret,
                        accept_invalid_certs: profile.accept_invalid_certs,
                    },
                ),
            )
        },
        Protocol::S3 => {
            if !profile.endpoint.as_str().is_empty() && !starts_with_str(profile.endpoint.as_str(), "https://") {
                return Err(
                    string_from("Nur https://-Endpoints — unverschlüsselte Verbindungen sind deaktiviert"),
                );
            }
            let region = if profile.region.as_str().is_empty() {
                string_from("us-east-1")
            } else {
                string_from(profile.region.as_str())
            };
            Ok(
                ConnectPlan::S3(
                    S3Config {
                        endpoint: non_empty_exec(profile.endpoint.as_str()),
                        region,
                        bucket: string_from(profile.bucket.as_str()),
                        access_key: string_from(profile.access_key.as_str()),
                        secret_key: secret,
                        path_style: profile.path_style,
                        accept_invalid_certs: profile.accept_invalid_certs,
                    },
                ),
            )
        },
        Protocol::Azure => Ok(
            ConnectPlan::Azure(
                AzureConfig {
                    account: string_from(profile.account.as_str()),
                    container: string_from(profile.bucket.as_str()),
                    access_key: secret,
                },
            ),
        ),
        Protocol::Gcs => Ok(
            ConnectPlan::Gcs(
                GcsConfig {
                    bucket: string_from(profile.bucket.as_str()),
                    key_file: string_from(profile.key_file.as_str()),
                },
            ),
        ),
    }
}

/// The error when no saved profile has the requested id.
pub fn profile_not_found() -> (r: String)
    ensures
        r@ == "Profil nicht gefunden"@,
{
    string_from("Profil nicht gefunden")
}

// ---------------------------------------------------------------------
// Laws
// ---------------------------------------------------------------------

/// A saved profile is what a lookup by its id finds afterwards.
pub proof fn law_saved_profile_found(ps: Seq<ProfileView>, p: ProfileView)
    ensures
        match first_with_id(upsert_spec(ps, p), p.id) {
            Some(i) => upsert_spec(ps, p)[i] == p,
            None => false,
        },
{
    lemma_first_with_id(ps, p.id);
    let u = upsert_spec(ps, p);
    match first_with_id(ps, p.id) {
        Some(i) => {
            lemma_first_with_id_unique(u, p.id, i);
        },
        None => {
            lemma_first_with_id_unique(u, p.id, ps.len() as int);
        },
    }
}

/// Saving the same profile twice leaves the list as one save left it.
pub proof fn law_save_idempotent(ps: Seq<ProfileView>, p: ProfileView)
    ensures
        upsert_spec(upsert_spec(ps, p), p) == upsert_spec(ps, p),
{
    law_saved_profile_found(ps, p);
    let u = upsert_spec(ps, p);
    lemma_first_with_id(u, p.id);
    let i = first_with_id(u, p.id).unwrap();
    assert(u.update(i, p) =~= u);
}

/// After deleting an id no profile with it is left, and every other
/// profile keeps its place in the order.
pub proof fn law_deleted_profile_gone(ps: Seq<ProfileView>, id: Seq<char>)
    ensures
        first_with_id(remove_spec(ps, id), id) is None,
        forall|k: int| 0 <= k < remove_spec(ps, id).len() ==> remove_spec(ps, id)[k].id != id,
        remove_spec(ps, id).len() <= ps.len(),
    decreases ps.len(),
{
    if ps.len() > 0 {
        law_deleted_profile_gone(ps.drop_last(), id);
    }
    lemma_first_with_id(remove_spec(ps, id), id);
}

/// Deleting keeps exactly the profiles with another id, in their order:
/// the result is the saved list filtered by the id.
pub proof fn law_delete_keeps_order(ps: Seq<ProfileView>, id: Seq<char>)
    ensures
        remove_spec(ps, id) == ps.filter(|p: ProfileView| p.id != id),
    decreases ps.len(),
{
    reveal(Seq::filter);
    if ps.len() > 0 {
        law_delete_keeps_order(ps.drop_last(), id);
    }
}

/// Saving replaces the first profile with the same id in its place and
/// leaves every other one as it was; a profile with a new id is appended.
pub proof fn law_save_replaces_first_or_appends(ps: Seq<ProfileView>, p: ProfileView)
    ensures
        (forall|k: int| 0 <= k < ps.len() ==> ps[k].id != p.id) ==> upsert_spec(ps, p) == ps.push(p),
        forall|i: int|
            0 <= i < ps.len() && #[trigger] ps[i].id == p.id && (forall|k: int| 0 <= k < i ==> ps[k].id != p.id)
                ==> upsert_spec(ps, p) == ps.update(i, p),
{
    lemma_first_with_id(ps, p.id);
    assert forall|i: int|
        0 <= i < ps.len() && #[trigger] ps[i].id == p.id && (forall|k: int| 0 <= k < i ==> ps[k].id != p.id)
            implies upsert_spec(ps, p) == ps.update(i, p) by {
        lemma_first_with_id_unique(ps, p.id, i);
    }
}

/// Deleting an id that no profile has changes nothing.
pub proof fn law_delete_unknown_id(ps: Seq<ProfileView>, id: Seq<char>)
    requires
        first_with_id(ps, id) is None,
    ensures
        remove_spec(ps, id) == ps,
    decreases ps.len(),
{
    lemma_first_with_id(ps, id);
    if ps.len() > 0 {
        lemma_first_with_id(ps.drop_last(), id);
        assert forall|j: int| 0 <= j < ps.drop_last().len() implies ps.drop_last()[j].id != id by {
            assert(ps.drop_last()[j] == ps[j]);
        }
        match first_with_id(ps.drop_last(), id) {
            Some(k) => {
                assert(ps.drop_last()[k].id != id);
            },
            None => {},
        }
        law_delete_unknown_id(ps.drop_last(), id);
        assert(ps.drop_last().push(ps.last()) =~= ps);
    }
}

/// A profile is refused exactly when it asks for an unencrypted
/// connection: WebDAV without an `https://` base URL, or S3 with a custom
/// endpoint that is not `https://`.
pub proof fn law_plan_refusals(p: ProfileView)
    ensures
        (p.protocol == Protocol::Webdav && !has_prefix(p.base_url, "https://"@)) ==> plan_error(p) == Some(
            "Nur https://-URLs — unverschlüsseltes WebDAV wird nicht unterstützt"@,
        ),
        (p.protocol == Protocol::S3 && p.endpoint.len() > 0 && !has_prefix(p.endpoint, "https://"@))
            ==> plan_error(p) == Some("Nur https://-Endpoints — unverschlüsselte Verbindungen sind deaktiviert"@),
        !((p.protocol == Protocol::Webdav && !has_prefix(p.base_url, "https://"@)) || (p.protocol == Protocol::S3
            && p.endpoint.len() > 0 && !has_prefix(p.endpoint, "https://"@))) ==> plan_error(p) is None,
{
}

/// The configuration planned for a profile carries the profile: the
/// connection kind its protocol names, its host, user and the standard
/// port where it gives none, the secret as password, passphrase (if any)
/// or key, the stored host key as the expected one, and for S3 its own
/// region (`us-east-1` only where it names none).
pub proof fn law_plan_carries_profile(p: ProfileView, secret: Seq<char>, plan: ConnectPlan)
    requires
        plan_matches(p, secret, plan),
    ensures
        (p.protocol == Protocol::Sftp) == (plan is Sftp),
        (p.protocol == Protocol::Ftp || p.protocol == Protocol::Ftps || p.protocol == Protocol::FtpsImplicit)
            == (plan is Ftp),
        (p.protocol == Protocol::Webdav) == (plan is Webdav),
        (p.protocol == Protocol::S3) == (plan is S3),
        (p.protocol == Protocol::Azure) == (plan is Azure),
        (p.protocol == Protocol::Gcs) == (plan is Gcs),
        plan matches ConnectPlan::Sftp(c) ==> {
            &&& c.host@ == p.host
            &&& c.port == (if p.port == 0 { 22 } else { p.port })
            &&& c.user@ == p.user
            &&& p.key_file.len() == 0 ==> (c.auth matches SshAuth::Password(pw) && pw@ == secret)
            &&& p.key_file.len() > 0 ==> (c.auth matches SshAuth::KeyFile { path, passphrase } && path@
                == p.key_file && (secret.len() == 0 ==> passphrase is None) && (secret.len() > 0 ==> (
            passphrase matches Some(x) && x@ == secret)))
            &&& p.host_key.len() == 0 ==> c.expected_host_key is None
            &&& p.host_key.len() > 0 ==> (c.expected_host_key matches Some(k) && k@ == p.host_key)
        },
        plan matches ConnectPlan::Ftp(c) ==> {
            &&& c.host@ == p.host
            &&& c.port == (if p.port != 0 {
                p.port
            } else if p.protocol == Protocol::FtpsImplicit {
                990
            } else {
                21
            })
            &&& c.user@ == p.user
            &&& c.password@ == secret
            &&& c.security == (if p.protocol == Protocol::FtpsImplicit {
                FtpSecurity::ImplicitTls
            } else {
                FtpSecurity::ExplicitTls
            })
            &&& c.accept_invalid_certs == p.accept_invalid_certs
        },
        plan matches ConnectPlan::Webdav(c) ==> {
            &&& c.base_url@ == p.base_url
            &&& c.user@ == p.user
            &&& c.password@ == secret
            &&& c.accept_invalid_certs == p.accept_invalid_certs
        },
        plan matches ConnectPlan::S3(c) ==> {
            &&& p.endpoint.len() == 0 ==> c.endpoint is None
            &&& p.endpoint.len() > 0 ==> (c.endpoint matches Some(e) && e@ == p.endpoint)
            &&& p.region.len() > 0 ==> c.region@ == p.region
            &&& p.region.len() == 0 ==> c.region@ == "us-east-1"@
            &&& c.bucket@ == p.bucket
            &&& c.access_key@ == p.access_key
            &&& c.secret_key@ == secret
            &&& c.path_style == p.path_style
            &&& c.accept_invalid_certs == p.accept_invalid_certs
        },
        plan matches ConnectPlan::Azure(c) ==> {
            &&& c.account@ == p.account
            &&& c.container@ == p.bucket
            &&& c.access_key@ == secret
        },
        plan matches ConnectPlan::Gcs(c) ==> {
            &&& c.bucket@ == p.bucket
            &&& c.key_file@ == p.key_file
        },
{
}

/// Only encrypted connections are planned: WebDAV only over `https://`,
/// S3 endpoints only over `https://`, FTP only with TLS.
pub proof fn law_only_encrypted_connections(p: ProfileView, secret: Seq<char>, plan: ConnectPlan)
    requires
        plan_error(p) is None,
        plan_matches(p, secret, plan),
    ensures
        plan matches ConnectPlan::Webdav(c) ==> has_prefix(c.base_url@, "https://"@),
        plan matches ConnectPlan::S3(c) ==> (c.endpoint matches Some(e) ==> has_prefix(e@, "https://"@)),
        plan matches ConnectPlan::Ftp(c) ==> (c.security == FtpSecurity::ExplicitTls || c.security
            == FtpSecurity::ImplicitTls),
{
}

/// Trust on first use across reconnects: once an SFTP profile has
/// remembered the key seen at its first connection, the next connection
/// expects that key and accepts it.
pub proof fn law_remembered_key_expected(p: ProfileView, seen: Seq<char>, secret: Seq<char>, plan: ConnectPlan)
    requires
        p.protocol == Protocol::Sftp,
        p.host_key.len() == 0,
        seen.len() > 0,
        plan_matches(remember_spec(p, seen), secret, plan),
    ensures
        plan matches ConnectPlan::Sftp(c) && opt_view(c.expected_host_key) == Some(seen)
            && host_key_accepted_spec(Some(seen), seen),
{
}

} // verus!
