//! The models that are read before a pipeline is built: where they come from, in
//! which order, and what is said when one fails.
use crate::embedding::EmbeddingError;
use crate::features::FbankError;
use crate::hf_fetch::FetchError;
use vstd::prelude::*;
use vstd::string::*;

verus! {

/// A model that is read before the pipeline is built.
#[derive(Clone, Copy, Debug, PartialEq, Eq, Structural)]
pub enum Model {
    Ecapa,
    Vad,
    Dfn3,
}

impl Model {
    /// Its name.
    pub open spec fn words(self) -> Seq<char> {
        match self {
            Model::Ecapa => "ECAPA"@,
            Model::Vad => "VAD"@,
            Model::Dfn3 => "DFN3"@,
        }
    }

    fn text(&self) -> (r: &'static str)
        ensures
            r@ == self.words(),
    {
        match self {
            Model::Ecapa => "ECAPA",
            Model::Vad => "VAD",
            Model::Dfn3 => "DFN3",
        }
    }
}

/// A model's file was brought.
pub open spec fn is_brought<A: Fn(Model) -> Result<String, FetchError>>(
    model: Model,
    ensure: A,
    r: Result<String, String>,
) -> bool {
    exists|outcome: Result<String, FetchError>|
        {
            &&& #[trigger] call_ensures(ensure, (model,), outcome)
            &&& match outcome {
                Ok(path) => r == Ok::<String, String>(path),
                Err(e) => r matches Err(t) && t@ == model.words() + " fetch: "@ + e.words(),
            }
        }
}

fn bring<A: Fn(Model) -> Result<String, FetchError>>(model: Model, ensure: &A) -> (r: Result<
    String,
    String,
>)
    requires
        call_requires(*ensure, (model,)),
    ensures
        is_brought(model, *ensure, r),
{
    let outcome: Result<String, FetchError> = ensure(model);
    assert(call_ensures(*ensure, (model,), outcome));
    match outcome {
        Ok(path) => Ok(path),
        Err(e) => {
            let mut s: String = model.text().to_owned();
            s.append(" fetch: ");
            let words: String = e.message();
            s.append(words.as_str());
            Err(s)
        },
    }
}

/// A model was read, or `failure` says why not.
pub open spec fn is_read<B: Fn(Model, &str) -> Result<(), EmbeddingError>>(
    model: Model,
    path: Seq<char>,
    read: B,
    failure: Option<String>,
) -> bool {
    exists|s: &str, outcome: Result<(), EmbeddingError>|
        {
            &&& s@ == path
            &&& #[trigger] call_ensures(read, (model, s), outcome)
            &&& match outcome {
                Ok(_) => failure is None,
                Err(e) => failure matches Some(t) && t@ == model.words() + " load: "@ + e.words(),
            }
        }
}

fn read_model<B: Fn(Model, &str) -> Result<(), EmbeddingError>>(
    model: Model,
    path: &str,
    read: &B,
) -> (failure: Option<String>)
    requires
        call_requires(*read, (model, path)),
    ensures
        is_read(model, path@, *read, failure),
{
    let outcome: Result<(), EmbeddingError> = read(model, path);
    assert(call_ensures(*read, (model, path), outcome));
    match outcome {
        Ok(_) => None,
        Err(e) => {
            let mut s: String = model.text().to_owned();
            s.append(" load: ");
            let words: String = e.message();
            s.append(words.as_str());
            Some(s)
        },
    }
}

/// What [`prepare_models`] returns: the files are brought first, in order; then
/// the feature extractor is made, and the models are read.
pub open spec fn are_prepared<
    A: Fn(Model) -> Result<String, FetchError>,
    B: Fn(Model, &str) -> Result<(), EmbeddingError>,
    Z: Fn() -> Result<(), FbankError>,
>(ensure: A, read: B, init_fbank: Z, r: Result<String, String>) -> bool {
    exists|ecapa: Result<String, String>|
        {
            &&& #[trigger] is_brought(Model::Ecapa, ensure, ecapa)
            &&& match ecapa {
                Err(t) => r == Err::<String, String>(t),
                Ok(ecapa) => exists|vad: Result<String, String>|
                    {
                        &&& #[trigger] is_brought(Model::Vad, ensure, vad)
                        &&& match vad {
                            Err(t) => r == Err::<String, String>(t),
                            Ok(vad) => exists|dfn3: Result<String, String>|
                                {
                                    &&& #[trigger] is_brought(Model::Dfn3, ensure, dfn3)
                                    &&& match dfn3 {
                                        Err(t) => r == Err::<String, String>(t),
                                        Ok(dfn3) => exists|failure: Option<String>|
                                            #[trigger] are_read(
                                                ecapa@,
                                                vad@,
                                                read,
                                                init_fbank,
                                                failure,
                                            ) && r == match failure {
                                                Some(t) => Err::<String, String>(t),
                                                None => Ok::<String, String>(dfn3),
                                            },
                                    }
                                },
                        }
                    },
            }
        }
}

/// The feature extractor was made and the models were read, or `failure` says
/// what went wrong first.
pub open spec fn are_read<
    B: Fn(Model, &str) -> Result<(), EmbeddingError>,
    Z: Fn() -> Result<(), FbankError>,
>(
    ecapa: Seq<char>,
    vad: Seq<char>,
    read: B,
    init_fbank: Z,
    failure: Option<String>,
) -> bool {
    exists|made: Result<(), FbankError>|
        {
            &&& #[trigger] call_ensures(init_fbank, (), made)
            &&& match made {
                Err(e) => failure matches Some(t) && t@ == "Fbank init: "@ + e.words(),
                Ok(_) => exists|first: Option<String>|
                    {
                        &&& #[trigger] is_read(Model::Ecapa, ecapa, read, first)
                        &&& match first {
                            Some(t) => failure == Some(t),
                            None => is_read(Model::Vad, vad, read, failure),
                        }
                    },
            }
        }
}

/// Brings and reads the models of the object; gives the path of the
/// noise-suppression model, which the pipeline reads.
pub fn prepare_models<
    A: Fn(Model) -> Result<String, FetchError>,
    B: Fn(Model, &str) -> Result<(), EmbeddingError>,
    Z: Fn() -> Result<(), FbankError>,
>(ensure: &A, read: &B, init_fbank: &Z) -> (r: Result<String, String>)
    requires
        forall|m: Model| call_requires(*ensure, (m,)),
        forall|m: Model, s: &str| call_requires(*read, (m, s)),
        call_requires(*init_fbank, ()),
    ensures
        are_prepared(*ensure, *read, *init_fbank, r),
{
    let ecapa: Result<String, String> = bring(Model::Ecapa, ensure);
    assert(is_brought(Model::Ecapa, *ensure, ecapa));
    let ecapa_path: String = match ecapa {
        Err(t) => {
            return Err(t);
        },
        Ok(path) => path,
    };
    let vad: Result<String, String> = bring(Model::Vad, ensure);
    assert(is_brought(Model::Vad, *ensure, vad));
    let vad_path: String = match vad {
        Err(t) => {
            return Err(t);
        },
        Ok(path) => path,
    };
    let dfn3: Result<String, String> = bring(Model::Dfn3, ensure);
    assert(is_brought(Model::Dfn3, *ensure, dfn3));
    let dfn3_path: String = match dfn3 {
        Err(t) => {
            return Err(t);
        },
        Ok(path) => path,
    };
    let failure: Option<String> = read_models(
        ecapa_path.as_str(),
        vad_path.as_str(),
        read,
        init_fbank,
    );
    assert(are_read(ecapa_path@, vad_path@, *read, *init_fbank, failure));
    match failure {
        Some(t) => Err(t),
        None => Ok(dfn3_path),
    }
}

/// Makes the feature extractor and reads the models that decisions need.
pub fn read_models<
    B: Fn(Model, &str) -> Result<(), EmbeddingError>,
    Z: Fn() -> Result<(), FbankError>,
>(ecapa_path: &str, vad_path: &str, read: &B, init_fbank: &Z) -> (failure: Option<String>)
    requires
        forall|m: Model, s: &str| call_requires(*read, (m, s)),
        call_requires(*init_fbank, ()),
    ensures
        are_read(ecapa_path@, vad_path@, *read, *init_fbank, failure),
{
    let made: Result<(), FbankError> = init_fbank();
    assert(call_ensures(*init_fbank, (), made));
    if let Err(e) = made {
        let words: String = e.message();
        return Some("Fbank init: ".to_owned().concat(words.as_str()));
    }
    let first: Option<String> = read_model(Model::Ecapa, ecapa_path, read);
    assert(is_read(Model::Ecapa, ecapa_path@, *read, first));
    match first {
        Some(t) => Some(t),
        None => read_model(Model::Vad, vad_path, read),
    }
}

} // verus!
