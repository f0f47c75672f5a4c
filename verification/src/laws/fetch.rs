//! Laws of bringing models from the hub.
use crate::hf_fetch::{fetch_bundle, fetch_file, model_url, Download, FetchError, FetchKit, Reply};
use vstd::prelude::*;

verus! {

/// The file is at the hub under its repository, on the main branch.
pub proof fn lemma_address_names_repository_and_file(repo: &str, file: &str, r: String)
    requires
        call_ensures(model_url, (repo, file), r),
    ensures
        r@ == "https://huggingface.co/"@ + repo@ + "/resolve/main/"@ + file@,
{
}

/// A file that was fetched lies where it is said to lie: it was there before, or the hub was
/// asked for it, answered well, and what it sent was stored in full beside that place and moved
/// there last.
pub proof fn lemma_fetched_file_is_in_place<
    J: Fn(&str, &str) -> String,
    E: Fn(&str) -> Option<String>,
    W: Fn(&str, &str) -> String,
    K: Fn(&str) -> Result<(), String>,
    A: Fn(&str) -> Result<(), String>,
    X: Fn(&str) -> bool,
    G: Fn(&str) -> Result<Reply, String>,
    S: Fn(&str, Option<u64>) -> Result<(), String>,
    V: Fn(&str, &str) -> Result<(), String>,
    U: Fn(&str),
>(
    kit: FetchKit<J, E, W, K, A, X, G, S, V, U>,
    repo: &str,
    file: &str,
    base: Option<&str>,
    place: String,
)
    requires
        call_ensures(
            fetch_file::<J, E, W, K, A, X, G, S, V, U>,
            (&kit, repo, file, base),
            Ok::<String, FetchError>(place),
        ),
    ensures
        base is Some,
        exists|p: &str, there: bool|
            {
                &&& #[trigger] call_ensures(kit.present, (p,), there)
                &&& p@ == place@
                &&& !there ==> was_brought(kit, repo@, file@, place@)
            },
{
    let found = choose|found: Result<String, FetchError>|
        {
            &&& #[trigger] crate::hf_fetch::is_place(
                repo@,
                file@,
                crate::text::text_view(base),
                kit.join,
                kit.make_dir,
                found,
            )
            &&& found matches Ok(path) && place@ == path@ && kit.is_present(
                path@,
                crate::hf_fetch::url_of(repo@, file@),
                None,
            )
        };
    let url = crate::hf_fetch::url_of(repo@, file@);
    if crate::hf_fetch::done(kit.present, place@, true) {
        let p = choose|p: &str| p@ == place@ && #[trigger] call_ensures(kit.present, (p,), true);
        assert(call_ensures(kit.present, (p,), true));
    } else {
        let p = choose|p: &str| p@ == place@ && #[trigger] call_ensures(kit.present, (p,), false);
        assert(call_ensures(kit.present, (p,), false));
        assert(kit.is_downloaded(place@, url, None));
        let reply = choose|reply: Result<Reply, String>|
            {
                &&& #[trigger] crate::hf_fetch::done(kit.get, url, reply)
                &&& reply matches Ok(reply) && reply.status == 200 && kit.is_stored(
                    place@,
                    reply,
                    None,
                )
            };
        let u = choose|u: &str| u@ == url && #[trigger] call_ensures(kit.get, (u,), reply);
        let tmp = choose|tmp: Seq<char>|
            #[trigger] kit.is_beside(place@, tmp) && kit.is_stored_through(
                place@,
                tmp,
                crate::text::string_view(reply->Ok_0.content_length),
                None,
            );
        let moved = choose|outcome: Result<(), String>|
            #[trigger] crate::hf_fetch::moved(kit.rename, tmp, place@, outcome) && outcome is Ok;
        let (a, b) = choose|a: &str, b: &str|
            a@ == tmp && b@ == place@ && #[trigger] call_ensures(kit.rename, (a, b), moved);
        let saved = choose|outcome: Result<(), String>|
            #[trigger] crate::hf_fetch::saved(
                kit.save,
                tmp,
                crate::text::string_view(reply->Ok_0.content_length),
                outcome,
            ) && outcome is Ok;
        let (c, n) = choose|c: &str, n: Option<u64>|
            c@ == tmp && #[trigger] call_ensures(kit.save, (c, n), saved);
        assert(call_ensures(kit.get, (u,), Ok(reply->Ok_0)));
        assert(saved->Ok_0 == ());
        assert(moved->Ok_0 == ());
        assert(call_ensures(kit.save, (c, n), Ok(())));
        assert(call_ensures(kit.rename, (a, b), Ok(())));
        assert(was_brought(kit, repo@, file@, place@));
    }
}

/// The hub answered well to the file's address, what it sent was stored in full, and what was
/// stored was moved to its place.
pub open spec fn was_brought<
    J: Fn(&str, &str) -> String,
    E: Fn(&str) -> Option<String>,
    W: Fn(&str, &str) -> String,
    K: Fn(&str) -> Result<(), String>,
    A: Fn(&str) -> Result<(), String>,
    X: Fn(&str) -> bool,
    G: Fn(&str) -> Result<Reply, String>,
    S: Fn(&str, Option<u64>) -> Result<(), String>,
    V: Fn(&str, &str) -> Result<(), String>,
    U: Fn(&str),
>(
    kit: FetchKit<J, E, W, K, A, X, G, S, V, U>,
    repo: Seq<char>,
    file: Seq<char>,
    place: Seq<char>,
) -> bool {
    exists|u: &str, reply: Reply, c: &str, n: Option<u64>, a: &str, b: &str|
        {
            &&& u@ == "https://huggingface.co/"@ + repo + "/resolve/main/"@ + file
            &&& #[trigger] call_ensures(kit.get, (u,), Ok(reply))
            &&& reply.status == 200
            &&& #[trigger] call_ensures(kit.save, (c, n), Ok(()))
            &&& #[trigger] call_ensures(kit.rename, (a, b), Ok(()))
            &&& a@ == c@
            &&& b@ == place
        }
}

/// A bundle is fetched whole: every file of it, each from its repository, and what comes back is
/// the place of one that is a graph.
pub proof fn lemma_bundle_is_fetched_whole<
    J: Fn(&str, &str) -> String,
    E: Fn(&str) -> Option<String>,
    W: Fn(&str, &str) -> String,
    K: Fn(&str) -> Result<(), String>,
    A: Fn(&str) -> Result<(), String>,
    X: Fn(&str) -> bool,
    G: Fn(&str) -> Result<Reply, String>,
    S: Fn(&str, Option<u64>) -> Result<(), String>,
    V: Fn(&str, &str) -> Result<(), String>,
    U: Fn(&str),
>(
    kit: FetchKit<J, E, W, K, A, X, G, S, V, U>,
    repo: &str,
    files: &[&'static str],
    base: Option<&str>,
    graph: String,
    i: int,
)
    requires
        call_ensures(
            fetch_bundle::<J, E, W, K, A, X, G, S, V, U>,
            (&kit, repo, files, base),
            Ok::<String, FetchError>(graph),
        ),
        0 <= i < files@.len(),
    ensures
        exists|place: String| #[trigger]
            kit.is_fetched(repo@, files@[i]@, crate::text::text_view(base), Ok(place)),
        exists|j: int, place: String|
            {
                &&& 0 <= j < files@.len()
                &&& #[trigger] kit.is_fetched(
                    repo@,
                    files@[j]@,
                    crate::text::text_view(base),
                    Ok(place),
                )
                &&& place@ == graph@
                &&& files@[j]@.len() >= 5
                &&& files@[j]@.subrange(files@[j]@.len() - 5, files@[j]@.len() as int) == ".onnx"@
            },
{
    let places = choose|places: Seq<String>|
        {
            &&& places.len() == files@.len()
            &&& #[trigger] kit.are_fetched(repo@, files@, crate::text::text_view(base), places)
            &&& crate::hf_fetch::last_graph(files@, files@.len()) matches Some(j) && graph@
                == places[j]@
        };
    reveal_strlit(".onnx");
    let j = lemma_graph_is_a_graph(files@, files@.len());
    assert(kit.is_fetched(repo@, files@[i]@, crate::text::text_view(base), Ok(places[i])));
    assert(kit.is_fetched(repo@, files@[j]@, crate::text::text_view(base), Ok(places[j])));
}

proof fn lemma_graph_is_a_graph(files: Seq<&str>, k: nat) -> (j: int)
    requires
        crate::hf_fetch::last_graph(files, k) is Some,
        k <= files.len(),
    ensures
        crate::hf_fetch::last_graph(files, k) == Some(j),
        0 <= j < k,
        files[j]@.len() >= ".onnx"@.len(),
        files[j]@.subrange(files[j]@.len() - ".onnx"@.len(), files[j]@.len() as int) == ".onnx"@,
    decreases k,
{
    let f = files[k - 1]@;
    if crate::text::has_suffix(f, ".onnx"@) {
        assert(f.skip(f.len() - ".onnx"@.len()) =~= f.subrange(
            f.len() - ".onnx"@.len(),
            f.len() as int,
        ));
        k - 1
    } else {
        lemma_graph_is_a_graph(files, (k - 1) as nat)
    }
}

/// A download counts the bytes that have come and ends with the first piece that is empty.
pub proof fn lemma_download_counts_bytes(d: &mut Download, n: usize, more: bool)
    requires
        call_ensures(Download::advance, (d, n), more),
    ensures
        final(d).so_far == old(d).so_far + n,
        final(d).total == old(d).total,
        more <==> n > 0,
{
}

} // verus!
