//! Direct upload through CloudDrive2 (CD2): the configuration checks, the mapping
//! from a local metadata path to the remote path of its video, and the endpoint of
//! an API method.
use vstd::prelude::*;

use crate::path::{
    is_absolute, is_absolute_path, is_dot, is_dot_dot, lemma_path_parts_then, lemma_split_nonempty,
    lemma_strip_parts_names, path_parts, segment_parts, split_segments, split_slash, strip_parts,
    strip_prefix, valid_name, Component, Part, parts,
};
use crate::text::{chars_of, str_contains, trim, trimmed, vec_contains};
use crate::notifier::pairs_view;
use crate::web::{join_url, joined_url, parse_url, parsed_url, UrlParts, UrlPartsView};

verus! {

/// The CD2 fields of the configuration.
pub struct Cd2Config {
    pub cd2_url: String,
    pub cd2_token: String,
    pub cd2_save_path: String,
}

/// Why a CD2 save path was refused.
#[derive(Debug, Clone, Copy, PartialEq, Eq, Structural)]
pub enum SavePathError {
    /// It is not an absolute directory other than the root, or it ends with `/`.
    NotAbsoluteDirectory,
    /// A directory name is empty, `.`, `..` or holds `\`.
    InvalidSegment,
}

/// Why the CD2 configuration was refused.
#[derive(Debug, Clone, Copy, PartialEq, Eq, Structural)]
pub enum Cd2ConfigError {
    /// Some but not all of address, token and save path are set.
    Incomplete,
    /// The address is not a URL.
    InvalidUrl,
    /// The address is not an HTTP(S) URL with a host.
    NotHttpUrl,
    /// The address holds credentials, a query or a fragment.
    UrlHasExtras,
    /// The token holds a line break.
    InvalidToken,
    /// The save path is invalid.
    SavePath(SavePathError),
    /// `BILI_SYNC_METADATA_ROOT` is not an absolute path.
    MetadataRootNotAbsolute,
}

/// The shape of a save path: absolute, not the root, no trailing `/`.
pub open spec fn remote_dir_shape(p: Seq<char>) -> bool {
    &&& p.len() > 0
    &&& p[0] == '/'
    &&& p != seq!['/']
    &&& p.last() != '/'
}

/// A directory name of a save path: not empty, not `.` or `..`, without `\`.
pub open spec fn valid_remote_segment(s: Seq<char>) -> bool {
    &&& s.len() > 0
    &&& s != seq!['.']
    &&& s != seq!['.', '.']
    &&& !s.contains('\\')
}

/// The verdict on a save path: its shape first, then every name after the leading `/`.
pub open spec fn remote_path_check(p: Seq<char>) -> Result<(), SavePathError> {
    if !remote_dir_shape(p) {
        Err(SavePathError::NotAbsoluteDirectory)
    } else if forall|k: int|
        1 <= k < split_slash(p).len() ==> valid_remote_segment(#[trigger] split_slash(p)[k]) {
        Ok(())
    } else {
        Err(SavePathError::InvalidSegment)
    }
}

/// Checks a CD2 save path: relative to the API token's root, absolute, not the root
/// itself, without a trailing `/`, and without empty, `.`, `..` or `\`-holding names.
pub fn validate_remote_path(path: &str) -> (r: Result<(), SavePathError>)
    ensures
        r == remote_path_check(path@),
{
    let cs = chars_of(path);
    let n = cs.len();
    if !(n > 0 && cs[0] == '/' && !(n == 1) && cs[n - 1] != '/') {
        proof {
            if n == 1 && cs@[0] == '/' {
                assert(cs@ =~= seq!['/']);
            }
        }
        return Err(SavePathError::NotAbsoluteDirectory);
    }
    assert(cs@ != seq!['/']) by {
        if cs@ == seq!['/'] {
            assert(cs@.len() == 1);
        }
    }
    let segs = split_segments(&cs);
    let ghost sv = segs.deep_view();
    proof {
        lemma_split_nonempty(cs@);
    }
    let mut k: usize = 1;
    while k < segs.len()
        invariant
            1 <= k <= segs.len(),
            segs.deep_view() == sv,
            sv == split_slash(path@),
            remote_dir_shape(path@),
            forall|j: int| 1 <= j < k ==> valid_remote_segment(#[trigger] sv[j]),
        decreases segs.len() - k,
    {
        let seg = &segs[k];
        assert(seg.deep_view() =~= seg@);
        assert(seg@ == sv[k as int]);
        if seg.len() == 0 || is_dot(seg) || is_dot_dot(seg) || vec_contains(seg, '\\') {
            assert(!valid_remote_segment(split_slash(path@)[k as int]));
            return Err(SavePathError::InvalidSegment);
        }
        k = k + 1;
    }
    Ok(())
}

/// Whether `s` is `http` or `https`.
pub open spec fn http_scheme(s: Seq<char>) -> bool {
    s == seq!['h', 't', 't', 'p'] || s == seq!['h', 't', 't', 'p', 's']
}

pub(crate) fn is_http_scheme(s: &String) -> (r: bool)
    ensures
        r == http_scheme(s@),
{
    let cs = chars_of(s.as_str());
    let n = cs.len();
    let r = (n == 4 || n == 5) && cs[0] == 'h' && cs[1] == 't' && cs[2] == 't' && cs[3] == 'p' && (
    n == 4 || cs[4] == 's');
    proof {
        if r {
            if n == 4 {
                assert(cs@ =~= seq!['h', 't', 't', 'p']);
            } else {
                assert(cs@ =~= seq!['h', 't', 't', 'p', 's']);
            }
        }
    }
    r
}

/// Whether an HTTP(S) address carries a host and nothing but scheme, host, port and path.
pub open spec fn plain_http_url(u: UrlPartsView) -> bool {
    &&& u.username.len() == 0
    &&& u.password is None
    &&& u.query is None
    &&& u.fragment is None
}

/// The metadata root used when `BILI_SYNC_METADATA_ROOT` is unset: `/media`.
pub open spec fn default_metadata_root() -> Seq<char> {
    seq!['/', 'm', 'e', 'd', 'i', 'a']
}

/// Validated CD2 settings, before the metadata root is resolved.
pub struct Cd2Settings {
    url: String,
    token: String,
    save_path: String,
    metadata_root: String,
}

/// The specification form of [`Cd2Settings`] and of a [`Cd2Client`].
pub struct Cd2View {
    /// The serialized service address.
    pub url: Seq<char>,
    pub token: Seq<char>,
    pub save_path: Seq<char>,
    pub metadata_root: Seq<char>,
}

impl View for Cd2Settings {
    type V = Cd2View;

    closed spec fn view(&self) -> Cd2View {
        Cd2View {
            url: self.url@,
            token: self.token@,
            save_path: self.save_path@,
            metadata_root: self.metadata_root@,
        }
    }
}

/// The CD2 settings that the configuration gives, or why it is refused.
/// `root_env` is the value of `BILI_SYNC_METADATA_ROOT`, if set.
pub open spec fn configured_settings(
    url_raw: Seq<char>,
    token_raw: Seq<char>,
    save_raw: Seq<char>,
    root_env: Option<Seq<char>>,
) -> Result<Option<Cd2View>, Cd2ConfigError> {
    let url = trim(url_raw);
    let token = trim(token_raw);
    let save = trim(save_raw);
    if url.len() == 0 && token.len() == 0 && save.len() == 0 {
        Ok(None)
    } else if url.len() == 0 || token.len() == 0 || save.len() == 0 {
        Err(Cd2ConfigError::Incomplete)
    } else {
        match parsed_url(url) {
            None => Err(Cd2ConfigError::InvalidUrl),
            Some(u) => if !(http_scheme(u.scheme) && u.host is Some) {
                Err(Cd2ConfigError::NotHttpUrl)
            } else if !plain_http_url(u) {
                Err(Cd2ConfigError::UrlHasExtras)
            } else if token.contains('\r') || token.contains('\n') {
                Err(Cd2ConfigError::InvalidToken)
            } else {
                match remote_path_check(save) {
                    Err(e) => Err(Cd2ConfigError::SavePath(e)),
                    Ok(()) => {
                        let root = match root_env {
                            Some(r) => r,
                            None => default_metadata_root(),
                        };
                        if !is_absolute_path(root) {
                            Err(Cd2ConfigError::MetadataRootNotAbsolute)
                        } else {
                            Ok(Some(Cd2View { url: u.href, token, save_path: save, metadata_root: root }))
                        }
                    },
                }
            },
        }
    }
}

impl Cd2Settings {
    #[verifier::type_invariant]
    closed spec fn settings_valid(&self) -> bool {
        &&& remote_path_check(self.save_path@) is Ok
        &&& is_absolute_path(self.metadata_root@)
    }

    /// The metadata root to resolve (`dunce::canonicalize`) before building the client.
    pub fn metadata_root(&self) -> (r: &str)
        ensures
            r@ == self@.metadata_root,
    {
        self.metadata_root.as_str()
    }
}

/// Checks the CD2 configuration as `Cd2Client::configured` does, up to resolving
/// the metadata root.
pub fn validate(config: &Cd2Config, root_env: Option<&str>) -> (r: Result<(), Cd2ConfigError>)
    ensures
        match configured_settings(
            config.cd2_url@,
            config.cd2_token@,
            config.cd2_save_path@,
            match root_env {
                Some(s) => Some(s@),
                None => None,
            },
        ) {
            Ok(_) => r is Ok,
            Err(e) => r == Err::<(), Cd2ConfigError>(e),
        },
{
    match Cd2Client::configured(config, root_env) {
        Ok(_) => Ok(()),
        Err(e) => Err(e),
    }
}

/// A CD2 client's settings: the service address, the API token, the save root on
/// the cloud drive and the (resolved) local metadata root.
pub struct Cd2Client {
    url: String,
    token: String,
    save_path: String,
    metadata_root: String,
}

impl View for Cd2Client {
    type V = Cd2View;

    closed spec fn view(&self) -> Cd2View {
        Cd2View {
            url: self.url@,
            token: self.token@,
            save_path: self.save_path@,
            metadata_root: self.metadata_root@,
        }
    }
}

/// Why a metadata path has no remote video path.
#[derive(Debug, Clone, Copy, PartialEq, Eq, Structural)]
pub enum RemotePathError {
    /// The path is not under the metadata root.
    OutsideMetadataRoot,
    /// The path is the metadata root itself.
    IsMetadataRoot,
    /// A name holds `/` or `\`.
    InvalidCharacter,
    /// A component is not a plain name (such as `..`).
    InvalidComponent,
}

/// The remote text for the components `rel`: `/name` for each, or the first fault.
pub open spec fn remote_suffix(rel: Seq<Part>) -> Result<Seq<char>, RemotePathError>
    decreases rel.len(),
{
    if rel.len() == 0 {
        Ok(seq![])
    } else {
        match rel[0] {
            Part::Name(s) => if s.contains('/') || s.contains('\\') {
                Err(RemotePathError::InvalidCharacter)
            } else {
                match remote_suffix(rel.drop_first()) {
                    Ok(t) => Ok(seq!['/'] + s + t),
                    Err(e) => Err(e),
                }
            },
            _ => Err(RemotePathError::InvalidComponent),
        }
    }
}

/// The remote path of the video for the metadata path `file`: the save path followed
/// by the names that follow the metadata root in `file`.
pub open spec fn remote_path_of(c: Cd2View, file: Seq<char>) -> Result<Seq<char>, RemotePathError> {
    match strip_parts(file, c.metadata_root) {
        None => Err(RemotePathError::OutsideMetadataRoot),
        Some(rel) => if rel.len() == 0 {
            Err(RemotePathError::IsMetadataRoot)
        } else {
            match remote_suffix(rel) {
                Ok(t) => Ok(c.save_path + t),
                Err(e) => Err(e),
            }
        },
    }
}

/// `r` with the text `a` put in front of a success.
pub open spec fn prefixed(a: Seq<char>, r: Result<Seq<char>, RemotePathError>) -> Result<
    Seq<char>,
    RemotePathError,
> {
    match r {
        Ok(t) => Ok(a + t),
        Err(e) => Err(e),
    }
}

/// Checks the parsed CD2 address: an HTTP(S) URL with a host, then without user
/// name, password, query or fragment.
pub fn check_cd2_url(parts: &UrlParts) -> (r: Result<(), Cd2ConfigError>)
    ensures
        !(http_scheme(parts@.scheme) && parts@.host is Some) ==> r matches Err(
            Cd2ConfigError::NotHttpUrl,
        ),
        http_scheme(parts@.scheme) && parts@.host is Some && !plain_http_url(parts@) ==> r matches Err(
            Cd2ConfigError::UrlHasExtras,
        ),
        http_scheme(parts@.scheme) && parts@.host is Some && plain_http_url(parts@) ==> r is Ok,
{
    if !(is_http_scheme(&parts.scheme) && parts.host.is_some()) {
        return Err(Cd2ConfigError::NotHttpUrl);
    }
    if !(parts.username.as_str().unicode_len() == 0 && parts.password.is_none()
        && parts.query.is_none() && parts.fragment.is_none()) {
        return Err(Cd2ConfigError::UrlHasExtras);
    }
    Ok(())
}

/// The path of an API method below the service address.
pub open spec fn rpc_path(method: Seq<char>) -> Seq<char> {
    "clouddrive.CloudDriveFileSrv/"@ + method
}

impl Cd2Client {
    #[verifier::type_invariant]
    closed spec fn client_valid(&self) -> bool {
        &&& remote_path_check(self.save_path@) is Ok
        &&& is_absolute_path(self.metadata_root@)
    }

    /// Checks the CD2 configuration: `Ok(None)` when no CD2 field is set, else the
    /// validated settings, whose metadata root (`root_env`, the value of
    /// `BILI_SYNC_METADATA_ROOT` if set, else `/media`) is still to be resolved before
    /// [`Cd2Client::new`].
    pub fn configured(config: &Cd2Config, root_env: Option<&str>) -> (r: Result<
        Option<Cd2Settings>,
        Cd2ConfigError,
    >)
        ensures
            match configured_settings(
                config.cd2_url@,
                config.cd2_token@,
                config.cd2_save_path@,
                match root_env {
                    Some(s) => Some(s@),
                    None => None,
                },
            ) {
                Ok(None) => r matches Ok(None),
                Ok(Some(v)) => r matches Ok(Some(s)) && s@ == v,
                Err(e) => r matches Err(x) && x == e,
            },
    {
        let url = trimmed(config.cd2_url.as_str());
        let token = trimmed(config.cd2_token.as_str());
        let save_path = trimmed(config.cd2_save_path.as_str());
        let url_empty = url.as_str().unicode_len() == 0;
        let token_empty = token.as_str().unicode_len() == 0;
        let save_empty = save_path.as_str().unicode_len() == 0;
        if url_empty && token_empty && save_empty {
            return Ok(None);
        }
        if url_empty || token_empty || save_empty {
            return Err(Cd2ConfigError::Incomplete);
        }
        let parts = match parse_url(url.as_str()) {
            Some(p) => p,
            None => return Err(Cd2ConfigError::InvalidUrl),
        };
        match check_cd2_url(&parts) {
            Err(e) => return Err(e),
            Ok(()) => {},
        }
        if str_contains(token.as_str(), '\r') || str_contains(token.as_str(), '\n') {
            return Err(Cd2ConfigError::InvalidToken);
        }
        match validate_remote_path(save_path.as_str()) {
            Err(e) => return Err(Cd2ConfigError::SavePath(e)),
            Ok(()) => {},
        }
        let metadata_root = match root_env {
            Some(r) => r.to_owned(),
            None => {
                let mut d = String::new();
                d.push('/');
                d.push('m');
                d.push('e');
                d.push('d');
                d.push('i');
                d.push('a');
                assert(d@ =~= default_metadata_root());
                d
            },
        };
        if !is_absolute(metadata_root.as_str()) {
            return Err(Cd2ConfigError::MetadataRootNotAbsolute);
        }
        Ok(Some(Cd2Settings { url: parts.href, token, save_path, metadata_root }))
    }

    /// The client for validated settings and the resolved metadata root.
    pub fn new(settings: Cd2Settings, metadata_root: String) -> (r: Cd2Client)
        requires
            is_absolute_path(metadata_root@),
        ensures
            r@ == (Cd2View { metadata_root: metadata_root@, ..settings@ }),
    {
        proof {
            use_type_invariant(&settings);
        }
        Cd2Client {
            url: settings.url,
            token: settings.token,
            save_path: settings.save_path,
            metadata_root,
        }
    }

    /// The API token, sent as a bearer token.
    pub fn token(&self) -> (r: &str)
        ensures
            r@ == self@.token,
    {
        self.token.as_str()
    }

    /// The remote path for the video of the local metadata path `metadata_file`: the
    /// save path followed by `/name` for each name below the metadata root.
    pub fn remote_path(&self, metadata_file: &str) -> (r: Result<String, RemotePathError>)
        ensures
            match remote_path_of(self@, metadata_file@) {
                Ok(p) => r matches Ok(s) && s@ == p,
                Err(e) => r matches Err(x) && x == e,
            },
    {
        let rel = match strip_prefix(metadata_file, self.metadata_root.as_str()) {
            None => return Err(RemotePathError::OutsideMetadataRoot),
            Some(rel) => rel,
        };
        if rel.len() == 0 {
            return Err(RemotePathError::IsMetadataRoot);
        }
        let ghost rv = parts(rel@);
        let mut output = self.save_path.clone();
        let mut i: usize = 0;
        assert(rv.skip(0) =~= rv);
        assert(output@.subrange(self.save_path@.len() as int, output@.len() as int)
            =~= Seq::<char>::empty());
        assert(output@.subrange(0, self.save_path@.len() as int) =~= self.save_path@);
        proof {
            if let Ok(t) = remote_suffix(rv) {
                assert(Seq::<char>::empty() + t =~= t);
            }
        }
        while i < rel.len()
            invariant
                i <= rel.len(),
                rv == parts(rel@),
                rv.len() > 0,
                strip_parts(metadata_file@, self@.metadata_root) == Some(rv),
                remote_suffix(rv) == prefixed(
                    output@.subrange(self.save_path@.len() as int, output@.len() as int),
                    remote_suffix(rv.skip(i as int)),
                ),
                self.save_path@.len() <= output@.len(),
                output@.subrange(0, self.save_path@.len() as int) == self.save_path@,
            decreases rel.len() - i,
        {
            let ghost tail = rv.skip(i as int);
            let ghost before = output@;
            assert(tail.len() > 0);
            assert(tail[0] == rel@[i as int]@);
            assert(tail.drop_first() =~= rv.skip(i + 1));
            match &rel[i] {
                Component::Normal(part) => {
                    assert(tail[0] == Part::Name(part@));
                    if str_contains(part.as_str(), '/') || str_contains(part.as_str(), '\\') {
                        assert(remote_suffix(tail) == Err::<Seq<char>, RemotePathError>(
                            RemotePathError::InvalidCharacter,
                        ));
                        return Err(RemotePathError::InvalidCharacter);
                    }
                    output.push('/');
                    output.append(part.as_str());
                    proof {
                        let n = self.save_path@.len() as int;
                        assert(output@ =~= before + seq!['/'] + part@);
                        assert(output@.subrange(0, n) =~= before.subrange(0, n));
                        assert(output@.subrange(n, output@.len() as int) =~= before.subrange(
                            n,
                            before.len() as int,
                        ) + (seq!['/'] + part@));
                        if let Ok(t) = remote_suffix(rv.skip(i + 1)) {
                            assert(before.subrange(n, before.len() as int) + (seq!['/'] + part@
                                + t) =~= before.subrange(n, before.len() as int) + (seq!['/']
                                + part@) + t);
                        }
                    }
                },
                _ => {
                    assert(!(tail[0] is Name));
                    assert(remote_suffix(tail) == Err::<Seq<char>, RemotePathError>(
                        RemotePathError::InvalidComponent,
                    ));
                    return Err(RemotePathError::InvalidComponent);
                },
            }
            i = i + 1;
        }
        proof {
            let n = self.save_path@.len() as int;
            assert(rv.skip(rel.len() as int) =~= Seq::<Part>::empty());
            let t = output@.subrange(n, output@.len() as int);
            assert(t + Seq::<char>::empty() =~= t);
            assert(output@ =~= self.save_path@ + t);
        }
        Ok(output)
    }

    /// The URL of the API method `method`: `clouddrive.CloudDriveFileSrv/<method>`
    /// resolved against the service address.
    pub fn endpoint(&self, method: &str) -> (r: Option<String>)
        ensures
            match joined_url(self@.url, rpc_path(method@)) {
                Some(u) => r matches Some(s) && s@ == u,
                None => r is None,
            },
    {
        let mut path = String::from_str("clouddrive.CloudDriveFileSrv/");
        path.append(method);
        join_url(self.url.as_str(), path.as_str())
    }
}

/// The headers of a CD2 API request besides the bearer token: gRPC-Web with protobuf
/// messages, as name and value.
pub open spec fn grpc_web_headers() -> Seq<(Seq<char>, Seq<char>)> {
    seq![
        ("content-type"@, "application/grpc-web+proto"@),
        ("accept"@, "application/grpc-web+proto"@),
        ("x-grpc-web"@, "1"@),
    ]
}

/// The headers of a CD2 API request besides the bearer token.
pub fn request_headers() -> (r: Vec<(String, String)>)
    ensures
        pairs_view(r@) == grpc_web_headers(),
{
    let mut r: Vec<(String, String)> = Vec::new();
    r.push(("content-type".to_owned(), "application/grpc-web+proto".to_owned()));
    r.push(("accept".to_owned(), "application/grpc-web+proto".to_owned()));
    r.push(("x-grpc-web".to_owned(), "1".to_owned()));
    assert(pairs_view(r@) =~= grpc_web_headers());
    r
}

/// Whether an HTTP status is a success (2xx).
pub fn http_success(status: u16) -> (r: bool)
    ensures
        r == (200 <= status <= 299),
{
    200 <= status && status <= 299
}

/// Appending the remote text of valid names to a non-empty path appends those names
/// to its components.
proof fn lemma_suffix_parts(r: Seq<char>, rel: Seq<Part>)
    requires
        r.len() > 0,
        remote_suffix(rel) is Ok,
        forall|i: int| 0 <= i < rel.len() ==> (#[trigger] rel[i] matches Part::Name(s) ==> valid_name(s)),
    ensures
        path_parts(r + remote_suffix(rel).unwrap()) == path_parts(r) + rel,
    decreases rel.len(),
{
    if rel.len() == 0 {
        assert(r + Seq::<char>::empty() =~= r);
        assert(path_parts(r) + rel =~= path_parts(r));
    } else {
        let rest = rel.drop_first();
        if let Part::Name(s) = rel[0] {
            assert(valid_name(s));
            let t2 = remote_suffix(rest).unwrap();
            let r2 = r + seq!['/'] + s;
            assert forall|i: int| 0 <= i < rest.len() implies (#[trigger] rest[i] matches Part::Name(x) ==> valid_name(x)) by {
                assert(rest[i] == rel[i + 1]);
            }
            lemma_suffix_parts(r2, rest);
            lemma_path_parts_then(r, s);
            assert(segment_parts(s) =~= seq![Part::Name(s)]);
            assert(r + remote_suffix(rel).unwrap() =~= r2 + t2);
            assert(path_parts(r) + seq![Part::Name(s)] + rest =~= path_parts(r) + rel);
        }
    }
}

/// The remote layout mirrors the local one: the names that follow the save path in
/// a video's remote path are those that follow the metadata root in its metadata path.
pub proof fn lemma_remote_path_mirrors(c: Cd2View, file: Seq<char>)
    requires
        remote_path_check(c.save_path) is Ok,
        is_absolute_path(c.metadata_root),
        remote_path_of(c, file) is Ok,
    ensures
        strip_parts(remote_path_of(c, file).unwrap(), c.save_path) == strip_parts(
            file,
            c.metadata_root,
        ),
{
    let rel = strip_parts(file, c.metadata_root).unwrap();
    lemma_strip_parts_names(file, c.metadata_root);
    lemma_suffix_parts(c.save_path, rel);
    let sp = path_parts(c.save_path);
    assert((sp + rel).take(sp.len() as int) =~= sp);
    assert((sp + rel).skip(sp.len() as int) =~= rel);
}


/// A save path is accepted exactly when it starts with `/`, is not `/` itself, does
/// not end with `/`, and each `/`-separated name after the leading `/` is non-empty,
/// neither `.` nor `..`, and free of `\`; any other character, a space among them,
/// is allowed in a name.
pub proof fn lemma_save_path_accepted(p: Seq<char>)
    ensures
        remote_path_check(p) is Ok <==> {
            &&& p.len() > 0
            &&& p[0] == '/'
            &&& p != seq!['/']
            &&& p[p.len() - 1] != '/'
            &&& forall|k: int|
                1 <= k < split_slash(p).len() ==> {
                    let s = #[trigger] split_slash(p)[k];
                    &&& s.len() > 0
                    &&& s != seq!['.']
                    &&& s != seq!['.', '.']
                    &&& forall|i: int| 0 <= i < s.len() ==> s[i] != '\\'
                }
        },
{
    if p.len() > 0 {
        assert(p.last() == p[p.len() - 1]);
    }
    assert forall|k: int| 1 <= k < split_slash(p).len() implies (valid_remote_segment(
        #[trigger] split_slash(p)[k],
    ) <==> {
        let s = split_slash(p)[k];
        &&& s.len() > 0
        &&& s != seq!['.']
        &&& s != seq!['.', '.']
        &&& forall|i: int| 0 <= i < s.len() ==> s[i] != '\\'
    }) by {
        let s = split_slash(p)[k];
        if s.contains('\\') {
            let i = choose|i: int| 0 <= i < s.len() && s[i] == '\\';
        }
    }
}


/// The CD2 settings are off exactly when address, token and save path are all blank.
/// When they are accepted, the client holds the address as it parses, the trimmed
/// token and save path, and the metadata root given (`/media` when unset): the
/// address is an `http` or `https` URL with a host and without user name, password,
/// query or fragment, the token holds no line break, the save path is accepted and the
/// root is absolute. Conversely, address and token set and all of that holding, they
/// are accepted.
pub proof fn lemma_configured_settings_fields(
    url_raw: Seq<char>,
    token_raw: Seq<char>,
    save_raw: Seq<char>,
    root_env: Option<Seq<char>>,
)
    ensures
        (configured_settings(url_raw, token_raw, save_raw, root_env) == Ok::<
            Option<Cd2View>,
            Cd2ConfigError,
        >(None)) <==> (trim(url_raw).len() == 0 && trim(token_raw).len() == 0 && trim(
            save_raw,
        ).len() == 0),
        ({
            let url = trim(url_raw);
            let token = trim(token_raw);
            let save = trim(save_raw);
            let root = match root_env {
                Some(r) => r,
                None => "/media"@,
            };
            let good = parsed_url(url) matches Some(u) && (u.scheme == "http"@ || u.scheme
                == "https"@) && u.host is Some && u.username.len() == 0 && u.password is None
                && u.query is None && u.fragment is None && !token.contains('\r')
                && !token.contains('\n') && remote_path_check(save) is Ok && is_absolute_path(
                root,
            ) && token.len() > 0 && url.len() > 0;
            &&& (configured_settings(url_raw, token_raw, save_raw, root_env) matches Ok(Some(v))
                ==> good && v == (Cd2View {
                url: parsed_url(url).unwrap().href,
                token,
                save_path: save,
                metadata_root: root,
            }))
            &&& (good ==> configured_settings(url_raw, token_raw, save_raw, root_env) == Ok::<
                Option<Cd2View>,
                Cd2ConfigError,
            >(
                Some(
                    Cd2View {
                        url: parsed_url(url).unwrap().href,
                        token,
                        save_path: save,
                        metadata_root: root,
                    },
                ),
            ))
        }),
{
    reveal_strlit("http");
    reveal_strlit("https");
    reveal_strlit("/media");
    assert("/media"@ =~= default_metadata_root());
    let save = trim(save_raw);
    let url = trim(url_raw);
    if remote_path_check(save) is Ok {
        assert(save.len() > 0);
    }
    if let Some(u) = parsed_url(url) {
        if u.scheme == "http"@ {
            assert(u.scheme =~= seq!['h', 't', 't', 'p']);
        }
        if u.scheme == "https"@ {
            assert(u.scheme =~= seq!['h', 't', 't', 'p', 's']);
        }
        if http_scheme(u.scheme) {
            assert(u.scheme == "http"@ || u.scheme == "https"@);
        }
    }
}

} // verus!
