//! Model files: where they lie in the cache, where they come from, and in what
//! steps one is brought. The steps themselves are parameters.
use crate::text::{
    append_decimal, dec, ends_with, has_suffix, parse_unsigned, parsed, string_view, text_view,
};
use vstd::prelude::*;
use vstd::string::*;

verus! {

/// The repository of the extraction model for 48 kHz.
pub const TSE_PROD_48K_REPO: &'static str = "penta2himajin/tse-conv-tasnet-48k";

/// Why a file cannot be had.
#[derive(Debug)]
pub enum FetchError {
    /// There is no cache directory.
    Cache(String),
    /// The server could not be reached.
    Http(String),
    /// The file could not be written.
    Io(String),
    /// The server did not give the file.
    Status { url: String, code: u16 },
}

impl FetchError {
    /// The words of the error.
    pub open spec fn words(self) -> Seq<char> {
        match self {
            FetchError::Cache(e) => "cache directory: "@ + e@,
            FetchError::Http(e) => "HTTP transport: "@ + e@,
            FetchError::Io(e) => "I/O: "@ + e@,
            FetchError::Status { url, code } => "GET "@ + url@ + " returned HTTP "@ + dec(
                code as nat,
            ),
        }
    }

    /// The error in words.
    pub fn message(&self) -> (r: String)
        ensures
            r@ == self.words(),
    {
        match self {
            FetchError::Cache(e) => "cache directory: ".to_owned().concat(e.as_str()),
            FetchError::Http(e) => "HTTP transport: ".to_owned().concat(e.as_str()),
            FetchError::Io(e) => "I/O: ".to_owned().concat(e.as_str()),
            FetchError::Status { url, code } => {
                let mut s: String = "GET ".to_owned();
                s.append(url.as_str());
                s.append(" returned HTTP ");
                append_decimal(&mut s, *code as u64);
                s
            },
        }
    }
}

/// The files that make up the extraction model for 48 kHz: the graph, and the
/// weights beside it.
pub fn tse_prod_48k_files() -> (r: [&'static str; 2])
    ensures
        r@.len() == 2,
        r@[0]@ == "tse_prod_48k.onnx"@,
        r@[1]@ == "tse_prod_48k.onnx.data"@,
{
    ["tse_prod_48k.onnx", "tse_prod_48k.onnx.data"]
}

// ---------------------------------------------------------------------
// Paths
// ---------------------------------------------------------------------
/// A step on a path had that outcome.
pub open spec fn done<R, F: Fn(&str) -> R>(step: F, path: Seq<char>, outcome: R) -> bool {
    exists|s: &str| s@ == path && #[trigger] call_ensures(step, (s,), outcome)
}

/// A step on a path succeeded.
pub open spec fn went_well<F: Fn(&str) -> Result<(), String>>(step: F, path: Seq<char>) -> bool {
    exists|outcome: Result<(), String>| #[trigger] done(step, path, outcome) && outcome is Ok
}

/// A step on a path and another text gave `path`.
pub open spec fn gave<J: Fn(&str, &str) -> String>(
    step: J,
    base: Seq<char>,
    other: Seq<char>,
    path: Seq<char>,
) -> bool {
    exists|a: &str, b: &str, s: String|
        a@ == base && b@ == other && s@ == path && #[trigger] call_ensures(step, (a, b), s)
}

/// `path` is `last` below `first` below `base`. How paths are put together is up to
/// the platform.
pub open spec fn gave_below<J: Fn(&str, &str) -> String>(
    join: J,
    base: Seq<char>,
    first: Seq<char>,
    last: Seq<char>,
    path: Seq<char>,
) -> bool {
    exists|above: Seq<char>| #[trigger] gave(join, base, first, above) && gave(
        join,
        above,
        last,
        path,
    )
}

/// The path of `last` below `first` below `base`.
pub fn path_below<J: Fn(&str, &str) -> String>(base: &str, first: &str, last: &str, join: &J) -> (r:
    String)
    requires
        forall|a: &str, b: &str| call_requires(*join, (a, b)),
    ensures
        gave_below(*join, base@, first@, last@, r@),
{
    let above: String = join(base, first);
    assert(gave(*join, base@, first@, above@));
    let path: String = join(above.as_str(), last);
    assert(gave(*join, above@, last@, path@));
    path
}

/// The extension of a file while it is being brought: `.partial` behind its own.
pub open spec fn partial_words(own: Option<Seq<char>>) -> Seq<char> {
    match own {
        Some(e) => e + ".partial"@,
        None => ".partial"@,
    }
}

/// The extension of a file while it is being brought, given its own.
pub fn partial_extension(own: Option<&str>) -> (r: String)
    ensures
        r@ == partial_words(text_view(own)),
{
    match own {
        Some(e) => e.to_owned().concat(".partial"),
        None => ".partial".to_owned(),
    }
}

/// Where a file of a repository comes from.
pub open spec fn url_of(repo: Seq<char>, file: Seq<char>) -> Seq<char> {
    "https://huggingface.co/"@ + repo + "/resolve/main/"@ + file
}

/// Where a file of a repository comes from.
pub fn model_url(repo: &str, file: &str) -> (r: String)
    ensures
        r@ == url_of(repo@, file@),
{
    let mut s: String = "https://huggingface.co/".to_owned();
    s.append(repo);
    s.append("/resolve/main/");
    s.append(file);
    s
}

// ---------------------------------------------------------------------
// The cache
// ---------------------------------------------------------------------
/// What [`cache_root`] returns: `mellonella/models` below the platform's cache
/// directory.
pub open spec fn is_root<J: Fn(&str, &str) -> String, K: Fn(&str) -> Result<(), String>>(
    base: Option<Seq<char>>,
    join: J,
    make_dir: K,
    r: Result<String, FetchError>,
) -> bool {
    match base {
        None => r matches Err(FetchError::Cache(e)) && e@
            == "platform cache directory not configured (no XDG_CACHE_HOME etc.)"@,
        Some(base) => exists|dir: Seq<char>| #[trigger]
            is_made(make_dir, dir, r) && gave_below(join, base, "mellonella"@, "models"@, dir),
    }
}

/// `r` is that directory, which was made, or the error of making it.
pub open spec fn is_made<K: Fn(&str) -> Result<(), String>>(
    make_dir: K,
    dir: Seq<char>,
    r: Result<String, FetchError>,
) -> bool {
    match r {
        Ok(d) => d@ == dir && went_well(make_dir, dir),
        Err(e) => e matches FetchError::Cache(e) && done(make_dir, dir, Err::<(), String>(e)),
    }
}

/// The directory of all models, made if need be.
pub fn cache_root<J: Fn(&str, &str) -> String, K: Fn(&str) -> Result<(), String>>(
    base: Option<&str>,
    join: &J,
    make_dir: &K,
) -> (r: Result<String, FetchError>)
    requires
        forall|a: &str, b: &str| call_requires(*join, (a, b)),
        forall|s: &str| call_requires(*make_dir, (s,)),
    ensures
        is_root(text_view(base), *join, *make_dir, r),
{
    match base {
        None => Err(
            FetchError::Cache(
                "platform cache directory not configured (no XDG_CACHE_HOME etc.)".to_owned(),
            ),
        ),
        Some(cache) => {
            let dir: String = path_below(cache, "mellonella", "models", join);
            let ghost place = dir@;
            assert(gave_below(*join, cache@, "mellonella"@, "models"@, place));
            let made: Result<(), String> = make_dir(dir.as_str());
            assert(done(*make_dir, place, made));
            let r: Result<String, FetchError> = match made {
                Ok(_) => Ok(dir),
                Err(e) => Err(FetchError::Cache(e)),
            };
            assert(is_made(*make_dir, place, r));
            r
        },
    }
}

/// What [`cached_path`] returns: the file below its repository below the directory
/// of all models.
pub open spec fn is_place<J: Fn(&str, &str) -> String, K: Fn(&str) -> Result<(), String>>(
    repo: Seq<char>,
    file: Seq<char>,
    base: Option<Seq<char>>,
    join: J,
    make_dir: K,
    r: Result<String, FetchError>,
) -> bool {
    exists|root: Result<String, FetchError>|
        {
            &&& #[trigger] is_root(base, join, make_dir, root)
            &&& match root {
                Err(e) => r == Err::<String, FetchError>(e),
                Ok(root) => r matches Ok(path) && gave_below(join, root@, repo, file, path@),
            }
        }
}

/// The place of a file in the cache.
pub fn cached_path<J: Fn(&str, &str) -> String, K: Fn(&str) -> Result<(), String>>(
    repo: &str,
    file: &str,
    base: Option<&str>,
    join: &J,
    make_dir: &K,
) -> (r: Result<String, FetchError>)
    requires
        forall|a: &str, b: &str| call_requires(*join, (a, b)),
        forall|s: &str| call_requires(*make_dir, (s,)),
    ensures
        is_place(repo@, file@, text_view(base), *join, *make_dir, r),
{
    let root: Result<String, FetchError> = cache_root(base, join, make_dir);
    assert(is_root(text_view(base), *join, *make_dir, root));
    match root {
        Err(e) => Err(e),
        Ok(root) => Ok(path_below(root.as_str(), repo, file, join)),
    }
}

// ---------------------------------------------------------------------
// Bringing a file
// ---------------------------------------------------------------------
/// What a server says before it sends a file.
#[derive(Debug)]
pub struct Reply {
    pub status: u16,
    pub content_length: Option<String>,
}

/// How much of a file has come, and how much there is, where that is known.
#[derive(Clone, Copy, Debug)]
pub struct Download {
    pub so_far: u64,
    pub total: Option<u64>,
}

/// The announced length as a number, if it is one.
pub open spec fn announced(content_length: Option<Seq<char>>) -> Option<nat> {
    match content_length {
        Some(s) => parsed(s, u64::MAX as nat),
        None => None,
    }
}

impl Download {
    /// Nothing has come yet.
    pub fn new(content_length: Option<&str>) -> (r: Self)
        ensures
            r.so_far == 0,
            match r.total {
                Some(n) => announced(text_view(content_length)) == Some(n as nat),
                None => announced(text_view(content_length)) is None,
            },
    {
        let total: Option<u64> = match content_length {
            Some(s) => parse_unsigned(s, u64::MAX),
            None => None,
        };
        Download { so_far: 0, total }
    }

    /// Another `n` bytes have come; none means that the file is complete.
    pub fn advance(&mut self, n: usize) -> (more: bool)
        requires
            old(self).so_far + n <= u64::MAX,
        ensures
            more == (n != 0),
            final(self).so_far == old(self).so_far + n,
            final(self).total == old(self).total,
    {
        self.so_far = self.so_far + n as u64;
        n != 0
    }
}

/// The steps of bringing a file: putting a path below another, the extension of a
/// path, giving it another, making a directory, making the directory above a path,
/// asking for a path, asking the server, storing what it sends, moving a file, and
/// removing one, if it is there.
pub struct FetchKit<J, E, W, K, A, X, G, S, V, U> {
    pub join: J,
    pub extension: E,
    pub with_extension: W,
    pub make_dir: K,
    pub make_parent: A,
    pub present: X,
    pub get: G,
    pub save: S,
    pub rename: V,
    pub remove: U,
}

/// A file was stored under `path` with that outcome.
pub open spec fn saved<S: Fn(&str, Option<u64>) -> Result<(), String>>(
    save: S,
    path: Seq<char>,
    content_length: Option<Seq<char>>,
    outcome: Result<(), String>,
) -> bool {
    exists|s: &str, total: Option<u64>|
        {
            &&& s@ == path
            &&& match total {
                Some(n) => announced(content_length) == Some(n as nat),
                None => announced(content_length) is None,
            }
            &&& #[trigger] call_ensures(save, (s, total), outcome)
        }
}

/// A file was moved with that outcome.
pub open spec fn moved<V: Fn(&str, &str) -> Result<(), String>>(
    rename: V,
    from: Seq<char>,
    to: Seq<char>,
    outcome: Result<(), String>,
) -> bool {
    exists|a: &str, b: &str|
        a@ == from && b@ == to && #[trigger] call_ensures(rename, (a, b), outcome)
}

/// A file was stored.
pub open spec fn was_saved<S: Fn(&str, Option<u64>) -> Result<(), String>>(
    save: S,
    path: Seq<char>,
    content_length: Option<Seq<char>>,
) -> bool {
    exists|outcome: Result<(), String>|
        #[trigger] saved(save, path, content_length, outcome) && outcome is Ok
}

/// A file was moved.
pub open spec fn was_moved<V: Fn(&str, &str) -> Result<(), String>>(
    rename: V,
    from: Seq<char>,
    to: Seq<char>,
) -> bool {
    exists|outcome: Result<(), String>|
        #[trigger] moved(rename, from, to, outcome) && outcome is Ok
}

/// The last of the first `k` files that is a graph.
pub open spec fn last_graph(files: Seq<&str>, k: nat) -> Option<int>
    decreases k,
{
    if k == 0 {
        None
    } else if has_suffix(files[k - 1]@, ".onnx"@) {
        Some(k - 1)
    } else {
        last_graph(files, (k - 1) as nat)
    }
}

impl<
    J: Fn(&str, &str) -> String,
    E: Fn(&str) -> Option<String>,
    W: Fn(&str, &str) -> String,
    K: Fn(&str) -> Result<(), String>,
    A: Fn(&str) -> Result<(), String>,
    X: Fn(&str) -> bool,
    G: Fn(&str) -> Result<Reply, String>,
    S: Fn(&str, Option<u64>) -> Result<(), String>,
    V: Fn(&str, &str) -> Result<(), String>,
    U: Fn(&str),
> FetchKit<J, E, W, K, A, X, G, S, V, U> {
    /// Every step can be taken on every path.
    pub open spec fn ready(&self) -> bool {
        &&& forall|a: &str, b: &str| call_requires(self.join, (a, b))
        &&& forall|s: &str| call_requires(self.extension, (s,))
        &&& forall|a: &str, b: &str| call_requires(self.with_extension, (a, b))
        &&& forall|s: &str| call_requires(self.make_dir, (s,))
        &&& forall|s: &str| call_requires(self.make_parent, (s,))
        &&& forall|s: &str| call_requires(self.present, (s,))
        &&& forall|s: &str| call_requires(self.get, (s,))
        &&& forall|s: &str, n: Option<u64>| call_requires(self.save, (s, n))
        &&& forall|a: &str, b: &str| call_requires(self.rename, (a, b))
        &&& forall|s: &str| call_requires(self.remove, (s,))
    }

    /// `tmp` is where a file lies while it is being brought: its place with
    /// `.partial` behind the extension.
    pub open spec fn is_beside(&self, path: Seq<char>, tmp: Seq<char>) -> bool {
        exists|own: Option<String>| #[trigger] done(self.extension, path, own) && gave(
            self.with_extension,
            path,
            partial_words(string_view(own)),
            tmp,
        )
    }

    /// The file was stored beside its place and moved there. Where either fails,
    /// what was stored is removed again.
    pub open spec fn is_stored(
        &self,
        path: Seq<char>,
        reply: Reply,
        failure: Option<FetchError>,
    ) -> bool {
        exists|tmp: Seq<char>|
            #[trigger] self.is_beside(path, tmp) && self.is_stored_through(
                path,
                tmp,
                string_view(reply.content_length),
                failure,
            )
    }

    /// The file was stored at `tmp` and moved to its place.
    pub open spec fn is_stored_through(
        &self,
        path: Seq<char>,
        tmp: Seq<char>,
        content_length: Option<Seq<char>>,
        failure: Option<FetchError>,
    ) -> bool {
        match failure {
            None => {
                &&& was_saved(self.save, tmp, content_length)
                &&& was_moved(self.rename, tmp, path)
            },
            Some(e) => {
                &&& done(self.remove, tmp, ())
                &&& e matches FetchError::Io(e)
                &&& {
                    ||| saved(self.save, tmp, content_length, Err(e))
                    ||| was_saved(self.save, tmp, content_length) && moved(
                        self.rename,
                        tmp,
                        path,
                        Err(e),
                    )
                }
            },
        }
    }

    /// The server was asked, and what it sent was stored.
    pub open spec fn is_downloaded(
        &self,
        path: Seq<char>,
        url: Seq<char>,
        failure: Option<FetchError>,
    ) -> bool {
        exists|reply: Result<Reply, String>|
            {
                &&& #[trigger] done(self.get, url, reply)
                &&& match reply {
                    Err(e) => failure == Some(FetchError::Http(e)),
                    Ok(reply) => if reply.status != 200 {
                        failure matches Some(FetchError::Status { url: u, code }) && u@ == url
                            && code == reply.status
                    } else {
                        self.is_stored(path, reply, failure)
                    },
                }
            }
    }

    /// The file at `path` is there, or was brought.
    pub open spec fn is_present(
        &self,
        path: Seq<char>,
        url: Seq<char>,
        failure: Option<FetchError>,
    ) -> bool {
        ||| done(self.present, path, true) && failure is None
        ||| {
            &&& done(self.present, path, false)
            &&& {
                ||| failure matches Some(FetchError::Cache(e)) && done(
                    self.make_parent,
                    path,
                    Err::<(), String>(e),
                )
                ||| went_well(self.make_parent, path) && self.is_downloaded(path, url, failure)
            }
        }
    }

    /// What [`fetch_file`] returns.
    pub open spec fn is_fetched(
        &self,
        repo: Seq<char>,
        file: Seq<char>,
        base: Option<Seq<char>>,
        r: Result<String, FetchError>,
    ) -> bool {
        exists|place: Result<String, FetchError>|
            {
                &&& #[trigger] is_place(repo, file, base, self.join, self.make_dir, place)
                &&& match place {
                    Err(e) => r == Err::<String, FetchError>(e),
                    Ok(path) => match r {
                        Ok(p) => p@ == path@ && self.is_present(path@, url_of(repo, file), None),
                        Err(e) => self.is_present(path@, url_of(repo, file), Some(e)),
                    },
                }
            }
    }

    fn store(&self, path: &str, reply: &Reply) -> (failure: Option<FetchError>)
        requires
            self.ready(),
        ensures
            self.is_stored(path@, *reply, failure),
    {
        let own: Option<String> = (self.extension)(path);
        assert(done(self.extension, path@, own));
        let ext: String = match &own {
            Some(e) => partial_extension(Some(e.as_str())),
            None => partial_extension(None),
        };
        let tmp: String = (self.with_extension)(path, ext.as_str());
        assert(gave(self.with_extension, path@, partial_words(string_view(own)), tmp@));
        assert(self.is_beside(path@, tmp@));
        let ahead: Download = match &reply.content_length {
            Some(s) => Download::new(Some(s.as_str())),
            None => Download::new(None),
        };
        let stored: Result<(), String> = (self.save)(tmp.as_str(), ahead.total);
        assert(saved(self.save, tmp@, string_view(reply.content_length), stored));
        match stored {
            Err(e) => {
                (self.remove)(tmp.as_str());
                assert(done(self.remove, tmp@, ()));
                Some(FetchError::Io(e))
            },
            Ok(_) => {
                let put: Result<(), String> = (self.rename)(tmp.as_str(), path);
                assert(moved(self.rename, tmp@, path@, put));
                match put {
                    Err(e) => {
                        (self.remove)(tmp.as_str());
                        assert(done(self.remove, tmp@, ()));
                        Some(FetchError::Io(e))
                    },
                    Ok(_) => None,
                }
            },
        }
    }

    fn download(&self, path: &str, url: String) -> (failure: Option<FetchError>)
        requires
            self.ready(),
        ensures
            self.is_downloaded(path@, url@, failure),
    {
        let reply: Result<Reply, String> = (self.get)(url.as_str());
        assert(done(self.get, url@, reply));
        match reply {
            Err(e) => Some(FetchError::Http(e)),
            Ok(reply) => {
                if reply.status != 200 {
                    return Some(FetchError::Status { url, code: reply.status });
                }
                self.store(path, &reply)
            },
        }
    }

    fn ensure_present(&self, path: &str, url: String) -> (failure: Option<FetchError>)
        requires
            self.ready(),
        ensures
            self.is_present(path@, url@, failure),
    {
        if (self.present)(path) {
            return None;
        }
        let made: Result<(), String> = (self.make_parent)(path);
        assert(done(self.make_parent, path@, made));
        match made {
            Err(e) => Some(FetchError::Cache(e)),
            Ok(_) => self.download(path, url),
        }
    }

    /// All the files before file `k` were brought, and these are their places.
    pub open spec fn are_fetched(
        &self,
        repo: Seq<char>,
        files: Seq<&str>,
        base: Option<Seq<char>>,
        places: Seq<String>,
    ) -> bool {
        forall|i: int|
            0 <= i < places.len() ==> #[trigger] self.is_fetched(
                repo,
                files[i]@,
                base,
                Ok(places[i]),
            )
    }

    /// What [`fetch_bundle`] returns: the first error, or the place of
    /// the graph.
    pub open spec fn is_bundle(
        &self,
        repo: Seq<char>,
        files: Seq<&str>,
        base: Option<Seq<char>>,
        r: Result<String, FetchError>,
    ) -> bool {
        exists|places: Seq<String>|
            {
                &&& places.len() <= files.len()
                &&& #[trigger] self.are_fetched(repo, files, base, places)
                &&& if places.len() < files.len() {
                    r is Err && self.is_fetched(repo, files[places.len() as int]@, base, r)
                } else {
                    match last_graph(files, files.len()) {
                        Some(i) => r matches Ok(p) && p@ == places[i]@,
                        None => r matches Err(FetchError::Cache(e)) && e@
                            == "internal error: TSE_PROD_48K_FILES has no .onnx entry"@,
                    }
                }
            }
    }

    /// What [`fetch_tse_prod_48k`] returns.
    pub open spec fn is_tse_prod_48k(
        &self,
        base: Option<Seq<char>>,
        r: Result<String, FetchError>,
    ) -> bool {
        let repo = TSE_PROD_48K_REPO@;
        match r {
            Ok(_) => {
                &&& self.is_fetched(repo, "tse_prod_48k.onnx"@, base, r)
                &&& exists|data: String|
                    #[trigger] self.is_fetched(repo, "tse_prod_48k.onnx.data"@, base, Ok(data))
            },
            Err(_) => {
                ||| self.is_fetched(repo, "tse_prod_48k.onnx"@, base, r)
                ||| self.is_fetched(repo, "tse_prod_48k.onnx.data"@, base, r) && exists|
                    graph: String,
                | #[trigger] self.is_fetched(repo, "tse_prod_48k.onnx"@, base, Ok(graph))
            },
        }
    }
}

/// Brings a file of a repository into the cache and gives its place. A file
/// that is there already is not asked for. While it is being brought it
/// lies beside its place; a download that fails leaves nothing there.
pub fn fetch_file<
    J: Fn(&str, &str) -> String,
    E: Fn(&str) -> Option<String>,
    W: Fn(&str, &str) -> String,
    K: Fn(&str) -> Result<(), String>,
    A: Fn(&str) -> Result<(), String>,
    X: Fn(&str) -> bool,
    G: Fn(&str) -> Result<Reply, String>,
    S: Fn(&str, Option<u64>) -> Result<(), String>,
    V: Fn(&str, &str) -> Result<(), String>,
    U: Fn(&str),
>(
    kit: &FetchKit<J, E, W, K, A, X, G, S, V, U>, repo: &str, file: &str, base: Option<&str>) -> (r: Result<
    String,
    FetchError,
>)
    requires
        kit.ready(),
    ensures
        kit.is_fetched(repo@, file@, text_view(base), r),
{
    let place: Result<String, FetchError> = cached_path(
        repo,
        file,
        base,
        &kit.join,
        &kit.make_dir,
    );
    assert(is_place(repo@, file@, text_view(base), kit.join, kit.make_dir, place));
    match place {
        Err(e) => Err(e),
        Ok(path) => {
            match kit.ensure_present(path.as_str(), model_url(repo, file)) {
                None => Ok(path),
                Some(e) => Err(e),
            }
        },
    }
}

/// Brings several files of a repository, one after the other, and gives the
/// place of the graph among them.
pub fn fetch_bundle<
    J: Fn(&str, &str) -> String,
    E: Fn(&str) -> Option<String>,
    W: Fn(&str, &str) -> String,
    K: Fn(&str) -> Result<(), String>,
    A: Fn(&str) -> Result<(), String>,
    X: Fn(&str) -> bool,
    G: Fn(&str) -> Result<Reply, String>,
    S: Fn(&str, Option<u64>) -> Result<(), String>,
    V: Fn(&str, &str) -> Result<(), String>,
    U: Fn(&str),
>(
    kit: &FetchKit<J, E, W, K, A, X, G, S, V, U>, repo: &str, files: &[&'static str], base: Option<&str>) -> (r:
    Result<String, FetchError>)
    requires
        kit.ready(),
    ensures
        kit.is_bundle(repo@, files@, text_view(base), r),
{
    let mut graph: Option<String> = None;
    let ghost mut places: Seq<String> = Seq::empty();
    let mut k: usize = 0;
    while k < files.len()
        invariant
            kit.ready(),
            k <= files@.len(),
            places.len() == k,
            kit.are_fetched(repo@, files@, text_view(base), places),
            match last_graph(files@, k as nat) {
                Some(i) => 0 <= i < k && (graph matches Some(p) && p@ == places[i]@),
                None => graph is None,
            },
        decreases files@.len() - k,
    {
        let file: &str = files[k];
        let fetched: Result<String, FetchError> = fetch_file(kit, repo, file, base);
        match fetched {
            Err(e) => {
                assert(kit.are_fetched(repo@, files@, text_view(base), places));
                return Err(e);
            },
            Ok(path) => {
                proof {
                    let before = places;
                    places = places.push(path);
                    assert forall|i: int|
                        0 <= i < places.len() implies #[trigger] kit.is_fetched(
                        repo@,
                        files@[i]@,
                        text_view(base),
                        Ok(places[i]),
                    ) by {
                        if i < k {
                            assert(kit.is_fetched(
                                repo@,
                                files@[i]@,
                                text_view(base),
                                Ok(before[i]),
                            ));
                        }
                    }
                }
                if ends_with(file, ".onnx") {
                    graph = Some(path);
                }
            },
        }
        k = k + 1;
    }
    assert(kit.are_fetched(repo@, files@, text_view(base), places));
    match graph {
        Some(path) => Ok(path),
        None => Err(
            FetchError::Cache(
                "internal error: TSE_PROD_48K_FILES has no .onnx entry".to_owned(),
            ),
        ),
    }
}

/// Brings the extraction model for 48 kHz, graph and weights, and gives the
/// place of the graph.
pub fn fetch_tse_prod_48k<
    J: Fn(&str, &str) -> String,
    E: Fn(&str) -> Option<String>,
    W: Fn(&str, &str) -> String,
    K: Fn(&str) -> Result<(), String>,
    A: Fn(&str) -> Result<(), String>,
    X: Fn(&str) -> bool,
    G: Fn(&str) -> Result<Reply, String>,
    S: Fn(&str, Option<u64>) -> Result<(), String>,
    V: Fn(&str, &str) -> Result<(), String>,
    U: Fn(&str),
>(
    kit: &FetchKit<J, E, W, K, A, X, G, S, V, U>, base: Option<&str>) -> (r: Result<String, FetchError>)
    requires
        kit.ready(),
    ensures
        kit.is_tse_prod_48k(text_view(base), r),
{
    let files: [&'static str; 2] = tse_prod_48k_files();
    let list: &[&'static str] = files.as_slice();
    proof {
        reveal_strlit("tse_prod_48k.onnx");
        reveal_strlit("tse_prod_48k.onnx.data");
        reveal_strlit(".onnx");
        let a = files@[0]@;
        let b = files@[1]@;
        assert(a.skip(a.len() - 5) =~= ".onnx"@);
        assert(b.skip(b.len() - 5)[4] == 'a');
        assert(last_graph(list@, 2) == Some(0int)) by {
            reveal_with_fuel(last_graph, 3);
        }
    }
    let r: Result<String, FetchError> = fetch_bundle(kit, TSE_PROD_48K_REPO, list, base);
    proof {
        let places = choose|places: Seq<String>|
            {
                &&& places.len() <= 2
                &&& #[trigger] kit.are_fetched(
                    TSE_PROD_48K_REPO@,
                    list@,
                    text_view(base),
                    places,
                )
                &&& if places.len() < 2 {
                    r is Err && kit.is_fetched(
                        TSE_PROD_48K_REPO@,
                        list@[places.len() as int]@,
                        text_view(base),
                        r,
                    )
                } else {
                    r matches Ok(p) && p@ == places[0]@
                }
            };
        if places.len() > 0 {
            assert(kit.is_fetched(
                TSE_PROD_48K_REPO@,
                list@[0]@,
                text_view(base),
                Ok(places[0]),
            ));
        }
        if places.len() > 1 {
            assert(kit.is_fetched(
                TSE_PROD_48K_REPO@,
                list@[1]@,
                text_view(base),
                Ok(places[1]),
            ));
        }
    }
    r
}

/// A failed download leaves nothing in the cache: once the server has begun to
/// send, a failure means that the file beside the place was removed again.
pub proof fn lemma_failure_leaves_nothing<
    J: Fn(&str, &str) -> String,
    E: Fn(&str) -> Option<String>,
    W: Fn(&str, &str) -> String,
    K: Fn(&str) -> Result<(), String>,
    A: Fn(&str) -> Result<(), String>,
    X: Fn(&str) -> bool,
    G: Fn(&str) -> Result<Reply, String>,
    S: Fn(&str, Option<u64>) -> Result<(), String>,
    V: Fn(&str, &str) -> Result<(), String>,
    U: Fn(&str),
>(kit: FetchKit<J, E, W, K, A, X, G, S, V, U>, path: Seq<char>, url: Seq<char>, e: FetchError)
    requires
        kit.is_downloaded(path, url, Some(e)),
        e is Io,
    ensures
        exists|tmp: Seq<char>| #[trigger] kit.is_beside(path, tmp) && done(kit.remove, tmp, ()),
{
}

} // verus!
