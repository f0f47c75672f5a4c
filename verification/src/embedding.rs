//! The speaker-embedding model seen from outside: what shapes its outputs may
//! have, how frame features are laid out, and what goes wrong.
use crate::rings::copied;
use crate::shapes::{fill_shape, misfit, shape_text, ShapeKind};
use crate::text::{append_decimal, append_dims, bracketed, dec};
use vstd::prelude::*;
use vstd::string::*;

verus! {

/// Length of a speaker embedding.
pub const EMBEDDING_DIM: usize = 192;

/// What can go wrong around the models.
#[derive(Debug)]
pub enum EmbeddingError {
    /// The runtime refused the model or its input.
    Ort(String),
    /// A tensor could not be built from its parts.
    Shape(String),
    /// An output has the wrong shape.
    UnexpectedOutputShape { got: Vec<i64>, expected_dim: usize },
    /// The model is not split into encoder and pooler.
    NotSplit,
}

impl EmbeddingError {
    /// The words of the error.
    pub open spec fn words(self) -> Seq<char> {
        match self {
            EmbeddingError::Ort(e) => "ONNX Runtime error: "@ + e@,
            EmbeddingError::Shape(e) => "ndarray shape error: "@ + e@,
            EmbeddingError::UnexpectedOutputShape { got, expected_dim } =>
                "ECAPA ONNX output shape "@ + bracketed(got@.map_values(|x: i64| x as int))
                + " not compatible with expected dim "@ + dec(expected_dim as nat),
            EmbeddingError::NotSplit =>
                "encode_features / pool_frame_features require a split (encoder + pooler) EcapaTdnn — build it with EcapaTdnn::from_split_onnx_paths"@,
        }
    }

    /// The error in words.
    pub fn message(&self) -> (r: String)
        ensures
            r@ == self.words(),
    {
        match self {
            EmbeddingError::Ort(e) => "ONNX Runtime error: ".to_owned().concat(e.as_str()),
            EmbeddingError::Shape(e) => "ndarray shape error: ".to_owned().concat(e.as_str()),
            EmbeddingError::UnexpectedOutputShape { got, expected_dim } => {
                let mut s: String = "ECAPA ONNX output shape ".to_owned();
                append_dims(&mut s, got.as_slice());
                s.append(" not compatible with expected dim ");
                append_decimal(&mut s, *expected_dim as u64);
                s
            },
            EmbeddingError::NotSplit =>
                "encode_features / pool_frame_features require a split (encoder + pooler) EcapaTdnn — build it with EcapaTdnn::from_split_onnx_paths".to_owned(),
        }
    }

    /// `self` says that data do not fill a shape, and why.
    pub open spec fn is_misfit(self, kind: ShapeKind) -> bool {
        self matches EmbeddingError::Shape(e) && e@ == kind.words()
    }

    /// `self` says that a tensor's data do not fill its shape.
    pub open spec fn is_incompatible(self) -> bool {
        self.is_misfit(ShapeKind::Incompatible)
    }

    /// `self` reports the shape `got` where `expected` was wanted.
    pub open spec fn reports(self, got: Seq<i64>, expected: usize) -> bool {
        self matches EmbeddingError::UnexpectedOutputShape { got: g, expected_dim } && g@ == got
            && expected_dim == expected
    }
}

/// The error for data that do not fill a shape.
pub fn incompatible_shape() -> (e: EmbeddingError)
    ensures
        e.is_incompatible(),
{
    EmbeddingError::Shape(shape_text(ShapeKind::Incompatible))
}

/// The error for an output of the wrong shape.
pub fn unexpected_shape(got: &[i64], expected_dim: usize) -> (e: EmbeddingError)
    ensures
        e.reports(got@, expected_dim),
{
    EmbeddingError::UnexpectedOutputShape { got: copied(got), expected_dim }
}

/// `dims` is the shape of one embedding, with or without a batch axis.
pub open spec fn is_embedding_shape(dims: Seq<i64>) -> bool {
    ||| dims.len() == 2 && dims[0] == 1 && dims[1] == EMBEDDING_DIM
    ||| dims.len() == 1 && dims[0] == EMBEDDING_DIM
}

/// Reads an embedding out of a model output.
pub fn embedding_from_view<N: Copy>(dims: &[i64], data: &[N]) -> (r: Result<
    Vec<N>,
    EmbeddingError,
>)
    requires
        is_embedding_shape(dims@) ==> data@.len() >= EMBEDDING_DIM,
    ensures
        match r {
            Ok(e) => is_embedding_shape(dims@) && e@ == data@.take(EMBEDDING_DIM as int),
            Err(e) => !is_embedding_shape(dims@) && e.reports(dims@, EMBEDDING_DIM),
        },
{
    let matches_shape: bool = (dims.len() == 2 && dims[0] == 1 && dims[1] == 192) || (dims.len()
        == 1 && dims[0] == 192);
    if !matches_shape {
        return Err(unexpected_shape(dims, EMBEDDING_DIM));
    }
    let mut out: Vec<N> = Vec::new();
    let mut i: usize = 0;
    while i < EMBEDDING_DIM
        invariant
            i <= EMBEDDING_DIM <= data@.len(),
            out@ =~= data@.take(i as int),
        decreases EMBEDDING_DIM - i,
    {
        out.push(data[i]);
        i = i + 1;
    }
    Ok(out)
}

/// The entry at `row`, `col` of a matrix with `cols` columns, stored row by row.
pub open spec fn at<N>(data: Seq<N>, cols: nat, row: int, col: int) -> N {
    data[row * cols + col]
}

/// `b` is the matrix `a` with `rows` rows and `cols` columns, columns first.
pub open spec fn is_transposed<N>(a: Seq<N>, rows: nat, cols: nat, b: Seq<N>) -> bool {
    &&& b.len() == rows * cols
    &&& forall|r: int, c: int|
        0 <= r < rows && 0 <= c < cols ==> #[trigger] at(b, rows, c, r) == at(a, cols, r, c)
}

/// Exchanges rows and columns of a matrix with `rows` rows and `cols` columns.
pub fn transpose<N: Copy>(a: &[N], rows: usize, cols: usize) -> (b: Vec<N>)
    requires
        rows * cols == a@.len(),
    ensures
        is_transposed(a@, rows as nat, cols as nat, b@),
{
    let n: usize = a.len();
    let mut b: Vec<N> = Vec::new();
    let mut c: usize = 0;
    while c < cols
        invariant
            n == a@.len(),
            rows * cols == n,
            c <= cols,
            b@.len() == c * rows,
            forall|i: int, j: int|
                0 <= i < rows && 0 <= j < c ==> #[trigger] at(b@, rows as nat, j, i) == at(
                    a@,
                    cols as nat,
                    i,
                    j,
                ),
        decreases cols - c,
    {
        let mut r: usize = 0;
        while r < rows
            invariant
                n == a@.len(),
                rows * cols == n,
                c < cols,
                r <= rows,
                b@.len() == c * rows + r,
                forall|i: int, j: int|
                    0 <= i < rows && 0 <= j < c ==> #[trigger] at(b@, rows as nat, j, i) == at(
                        a@,
                        cols as nat,
                        i,
                        j,
                    ),
                forall|i: int|
                    0 <= i < r ==> #[trigger] at(b@, rows as nat, c as int, i) == at(
                        a@,
                        cols as nat,
                        i,
                        c as int,
                    ),
            decreases rows - r,
        {
            proof {
                lemma_index_fits(r as nat, c as nat, rows as nat, cols as nat);
            }
            let x: N = a[r * cols + c];
            let ghost before = b@;
            b.push(x);
            proof {
                assert forall|i: int, j: int| 0 <= i < rows && 0 <= j < c implies #[trigger] at(
                    b@,
                    rows as nat,
                    j,
                    i,
                ) == at(a@, cols as nat, i, j) by {
                    lemma_index_fits(j as nat, i as nat, c as nat, rows as nat);
                    assert(at(b@, rows as nat, j, i) == at(before, rows as nat, j, i));
                }
                assert forall|i: int| 0 <= i < r + 1 implies #[trigger] at(
                    b@,
                    rows as nat,
                    c as int,
                    i,
                ) == at(a@, cols as nat, i, c as int) by {
                    if i < r {
                        assert(at(b@, rows as nat, c as int, i) == at(
                            before,
                            rows as nat,
                            c as int,
                            i,
                        ));
                    }
                }
            }
            r = r + 1;
        }
        assert((c + 1) * rows == c * rows + rows) by (nonlinear_arith);
        c = c + 1;
    }
    assert(cols * rows == rows * cols) by (nonlinear_arith);
    b
}

/// A position inside a matrix is a position inside its storage.
proof fn lemma_index_fits(row: nat, col: nat, rows: nat, cols: nat)
    requires
        row < rows,
        col < cols,
    ensures
        row * cols + col < rows * cols,
        row * cols <= rows * cols,
{
    assert(row * cols + cols == (row + 1) * cols) by (nonlinear_arith);
    assert((row + 1) * cols <= rows * cols) by (nonlinear_arith)
        requires
            row + 1 <= rows,
    ;
}

/// Exchanging rows and columns twice gives the matrix back.
pub proof fn lemma_transpose_twice<N>(a: Seq<N>, rows: nat, cols: nat, b: Seq<N>, c: Seq<N>)
    requires
        a.len() == rows * cols,
        is_transposed(a, rows, cols, b),
        is_transposed(b, cols, rows, c),
    ensures
        c == a,
{
    assert(cols * rows == rows * cols) by (nonlinear_arith);
    assert forall|k: int| 0 <= k < a.len() implies c[k] == a[k] by {
        if cols == 0 {
            assert(rows * cols == 0) by (nonlinear_arith)
                requires
                    cols == 0,
            ;
        }
        let i = k / cols as int;
        let j = k % cols as int;
        assert(k == i * cols + j && 0 <= j < cols) by {
            vstd::arithmetic::div_mod::lemma_fundamental_div_mod(k, cols as int);
            assert(cols * i == i * cols) by (nonlinear_arith);
        }
        assert(0 <= i < rows) by (nonlinear_arith)
            requires
                k == i * cols + j,
                0 <= j < cols,
                0 <= k < rows * cols,
        ;
        assert(at(b, rows, j, i) == at(a, cols, i, j));
        assert(at(c, cols, i, j) == at(b, rows, j, i));
    }
    assert(c =~= a);
}

/// Frame-wise features of the encoder, one frame after the other.
#[derive(Clone, Debug)]
pub struct FrameFeatures<N> {
    pub data: Vec<N>,
    pub n_frames: usize,
    pub c_mfa: usize,
}

/// `dims` is the shape of one batch of channels by frames.
pub open spec fn is_frame_shape(dims: Seq<i64>) -> bool {
    dims.len() == 3 && dims[0] == 1
}

/// Reads the encoder's output, which comes channel by channel, into frame
/// order.
pub fn frame_features<N: Copy>(dims: &[i64], data: &[N]) -> (r: Result<
    FrameFeatures<N>,
    EmbeddingError,
>)
    requires
        is_frame_shape(dims@) ==> 0 <= dims@[1] && 0 <= dims@[2] && dims@[1] * dims@[2]
            == data@.len(),
        is_frame_shape(dims@) ==> dims@[1] <= usize::MAX && dims@[2] <= usize::MAX,
    ensures
        match r {
            Ok(f) => {
                &&& is_frame_shape(dims@)
                &&& f.c_mfa == dims@[1]
                &&& f.n_frames == dims@[2]
                &&& is_transposed(data@, dims@[1] as nat, dims@[2] as nat, f.data@)
            },
            Err(e) => !is_frame_shape(dims@) && e.reports(dims@, 0),
        },
{
    if dims.len() != 3 || dims[0] != 1 {
        return Err(unexpected_shape(dims, 0));
    }
    let c_mfa: usize = dims[1] as usize;
    let t: usize = dims[2] as usize;
    Ok(FrameFeatures { data: transpose(data, c_mfa, t), n_frames: t, c_mfa })
}

/// Prepares frame features for the pooler, which wants them channel by channel.
pub fn pooler_input<N: Copy>(frame_data: &[N], n_frames: usize, c_mfa: usize) -> (r: Result<
    Vec<N>,
    EmbeddingError,
>)
    requires
        n_frames * c_mfa <= usize::MAX,
    ensures
        match r {
            Ok(v) => {
                &&& frame_data@.len() == n_frames * c_mfa
                &&& misfit((1, c_mfa, n_frames), frame_data@.len()) is None
                &&& is_transposed(frame_data@, n_frames as nat, c_mfa as nat, v@)
            },
            Err(e) => if frame_data@.len() != n_frames * c_mfa {
                e.is_incompatible()
            } else {
                misfit((1, c_mfa, n_frames), frame_data@.len()) matches Some(kind) && e.is_misfit(
                    kind,
                )
            },
        },
{
    if frame_data.len() != n_frames * c_mfa {
        return Err(incompatible_shape());
    }
    match fill_shape((1, c_mfa, n_frames), transpose(frame_data, n_frames, c_mfa)) {
        Err(kind) => Err(EmbeddingError::Shape(shape_text(kind))),
        Ok(input) => Ok(input),
    }
}

/// A tensor that a model gives back: its shape and its data, row by row.
#[derive(Debug)]
pub struct GraphOutput<N> {
    pub dims: Vec<i64>,
    pub data: Vec<N>,
}

impl<N> GraphOutput<N> {
    /// The data fill the shape, for shapes of up to three axes.
    pub open spec fn wf(&self) -> bool {
        &&& forall|i: int|
            0 <= i < self.dims@.len() ==> 0 <= #[trigger] self.dims@[i] <= usize::MAX
        &&& self.dims@.len() == 1 ==> self.dims@[0] == self.data@.len()
        &&& self.dims@.len() == 2 ==> self.dims@[0] * self.dims@[1] == self.data@.len()
        &&& self.dims@.len() == 3 ==> self.dims@[0] * self.dims@[1] * self.dims@[2]
            == self.data@.len()
    }
}

/// How the embedding model is stored: whole, or split after the encoder. A
/// loaded graph takes its input and the two lengths of its shape behind the
/// batch axis.
pub enum Backend<S> {
    Mono(S),
    Split { encoder: S, pooler: S },
}

/// The model was run on `input` of that shape with that outcome.
pub open spec fn was_run<
    N,
    S: Fn(&Vec<N>, usize, usize) -> Result<GraphOutput<N>, EmbeddingError>,
>(
    session: S,
    input: Seq<N>,
    rows: usize,
    cols: usize,
    outcome: Result<GraphOutput<N>, EmbeddingError>,
) -> bool {
    exists|v: Vec<N>|
        v@ == input && #[trigger] call_ensures(session, (&v, rows, cols), outcome)
}

/// The graph can be run on anything and gives tensors back.
pub open spec fn is_graph<N, S: Fn(&Vec<N>, usize, usize) -> Result<GraphOutput<N>, EmbeddingError>>(
    session: S,
) -> bool {
    &&& forall|v: &Vec<N>, rows: usize, cols: usize| call_requires(session, (v, rows, cols))
    &&& forall|v: &Vec<N>, rows: usize, cols: usize, t: GraphOutput<N>| #[trigger]
        call_ensures(session, (v, rows, cols), Ok(t)) ==> t.wf()
}

/// An embedding was read out of the outcome of a run.
pub open spec fn is_read_out<N>(
    outcome: Result<GraphOutput<N>, EmbeddingError>,
    r: Result<Vec<N>, EmbeddingError>,
) -> bool {
    match outcome {
        Err(e) => r == Err::<Vec<N>, EmbeddingError>(e),
        Ok(t) => if is_embedding_shape(t.dims@) {
            r matches Ok(v) && v@ == t.data@.take(EMBEDDING_DIM as int)
        } else {
            r matches Err(e) && e.reports(t.dims@, EMBEDDING_DIM)
        },
    }
}

/// What a whole model returns.
pub open spec fn is_embedded<
    N,
    S: Fn(&Vec<N>, usize, usize) -> Result<GraphOutput<N>, EmbeddingError>,
>(
    session: S,
    features: Seq<N>,
    n_frames: usize,
    n_mels: usize,
    r: Result<Vec<N>, EmbeddingError>,
) -> bool {
    match misfit((1, n_frames, n_mels), features.len()) {
        Some(kind) => r matches Err(e) && e.is_misfit(kind),
        None => exists|outcome: Result<GraphOutput<N>, EmbeddingError>|
            #[trigger] was_run(session, features, n_frames, n_mels, outcome) && is_read_out(
                outcome,
                r,
            ),
    }
}

/// What the encoder returns.
pub open spec fn is_encoded<
    N,
    S: Fn(&Vec<N>, usize, usize) -> Result<GraphOutput<N>, EmbeddingError>,
>(
    session: S,
    features: Seq<N>,
    n_frames: usize,
    n_mels: usize,
    r: Result<FrameFeatures<N>, EmbeddingError>,
) -> bool {
    match misfit((1, n_frames, n_mels), features.len()) {
        Some(kind) => r matches Err(e) && e.is_misfit(kind),
        None => exists|outcome: Result<GraphOutput<N>, EmbeddingError>|
            #[trigger] was_run(session, features, n_frames, n_mels, outcome) && match outcome {
                Err(e) => r == Err::<FrameFeatures<N>, EmbeddingError>(e),
                Ok(t) => if is_frame_shape(t.dims@) {
                    r matches Ok(f) && f.c_mfa == t.dims@[1] && f.n_frames == t.dims@[2]
                        && is_transposed(
                        t.data@,
                        t.dims@[1] as nat,
                        t.dims@[2] as nat,
                        f.data@,
                    )
                } else {
                    r matches Err(e) && e.reports(t.dims@, 0)
                },
            },
    }
}

/// What the pooler returns.
pub open spec fn is_pooled<
    N,
    S: Fn(&Vec<N>, usize, usize) -> Result<GraphOutput<N>, EmbeddingError>,
>(
    session: S,
    frame_data: Seq<N>,
    n_frames: usize,
    c_mfa: usize,
    r: Result<Vec<N>, EmbeddingError>,
) -> bool {
    if frame_data.len() != n_frames * c_mfa {
        r matches Err(e) && e.is_incompatible()
    } else {
        match misfit((1, c_mfa, n_frames), frame_data.len()) {
            Some(kind) => r matches Err(e) && e.is_misfit(kind),
            None => exists|input: Seq<N>, outcome: Result<GraphOutput<N>, EmbeddingError>|
                {
                    &&& is_transposed(frame_data, n_frames as nat, c_mfa as nat, input)
                    &&& #[trigger] was_run(session, input, c_mfa, n_frames, outcome)
                    &&& is_read_out(outcome, r)
                },
        }
    }
}

fn run_encoder<N: Copy, S: Fn(&Vec<N>, usize, usize) -> Result<GraphOutput<N>, EmbeddingError>>(
    session: &S,
    features: &[N],
    n_frames: usize,
    n_mels: usize,
) -> (r: Result<FrameFeatures<N>, EmbeddingError>)
    requires
        is_graph::<N, S>(*session),
    ensures
        is_encoded(*session, features@, n_frames, n_mels, r),
        r matches Ok(f) ==> f.data@.len() == f.n_frames * f.c_mfa,
{
    match fill_shape((1, n_frames, n_mels), copied(features)) {
        Err(kind) => Err(EmbeddingError::Shape(shape_text(kind))),
        Ok(input) => {
            let outcome: Result<GraphOutput<N>, EmbeddingError> = session(&input, n_frames, n_mels);
            assert(was_run(*session, features@, n_frames, n_mels, outcome));
            match outcome {
                Err(e) => Err(e),
                Ok(t) => {
                    assert(t.wf());
                    proof {
                        if t.dims@.len() == 3 {
                            let (a, b, c) = (t.dims@[0], t.dims@[1], t.dims@[2]);
                            assert(a == 1 ==> a * b * c == b * c) by (nonlinear_arith);
                        }
                    }
                    let f: Result<FrameFeatures<N>, EmbeddingError> = frame_features(
                        t.dims.as_slice(),
                        t.data.as_slice(),
                    );
                    proof {
                        if f is Ok {
                            let (b, c) = (t.dims@[1], t.dims@[2]);
                            assert(b * c == c * b) by (nonlinear_arith);
                        }
                    }
                    f
                },
            }
        },
    }
}

fn run_pooler<N: Copy, S: Fn(&Vec<N>, usize, usize) -> Result<GraphOutput<N>, EmbeddingError>>(
    session: &S,
    frame_data: &[N],
    n_frames: usize,
    c_mfa: usize,
) -> (r: Result<Vec<N>, EmbeddingError>)
    requires
        is_graph::<N, S>(*session),
        n_frames * c_mfa <= usize::MAX,
    ensures
        is_pooled(*session, frame_data@, n_frames, c_mfa, r),
{
    match pooler_input(frame_data, n_frames, c_mfa) {
        Err(e) => Err(e),
        Ok(input) => {
            let outcome: Result<GraphOutput<N>, EmbeddingError> = session(&input, c_mfa, n_frames);
            assert(was_run(*session, input@, c_mfa, n_frames, outcome));
            read_out(outcome)
        },
    }
}

fn read_out<N: Copy>(outcome: Result<GraphOutput<N>, EmbeddingError>) -> (r: Result<
    Vec<N>,
    EmbeddingError,
>)
    requires
        outcome matches Ok(t) ==> t.wf(),
    ensures
        is_read_out(outcome, r),
{
    match outcome {
        Err(e) => Err(e),
        Ok(t) => embedding_from_view(t.dims.as_slice(), t.data.as_slice()),
    }
}

/// The embedding model.
pub struct EcapaTdnn<S> {
    pub backend: Backend<S>,
}

impl<S> EcapaTdnn<S> {
    /// Loads a whole model.
    pub fn from_onnx_path<L: Fn(&str) -> Result<S, EmbeddingError>>(
        path: &str,
        load: &L,
    ) -> (r: Result<Self, EmbeddingError>)
        requires
            call_requires(*load, (path,)),
        ensures
            match r {
                Ok(m) => m.backend matches Backend::Mono(s) && call_ensures(
                    *load,
                    (path,),
                    Ok::<S, EmbeddingError>(s),
                ),
                Err(e) => call_ensures(*load, (path,), Err::<S, EmbeddingError>(e)),
            },
    {
        match load(path) {
            Ok(session) => Ok(EcapaTdnn { backend: Backend::Mono(session) }),
            Err(e) => Err(e),
        }
    }

    /// Loads a model that is split after its encoder: first the encoder, and
    /// only behind it the pooler.
    pub fn from_split_onnx_paths<L: Fn(&str) -> Result<S, EmbeddingError>>(
        encoder: &str,
        pooler: &str,
        load: &L,
    ) -> (r: Result<Self, EmbeddingError>)
        requires
            call_requires(*load, (encoder,)),
            call_requires(*load, (pooler,)),
        ensures
            match r {
                Ok(m) => m.backend matches Backend::Split { encoder: e, pooler: p } && call_ensures(
                    *load,
                    (encoder,),
                    Ok::<S, EmbeddingError>(e),
                ) && call_ensures(*load, (pooler,), Ok::<S, EmbeddingError>(p)),
                Err(e) => {
                    ||| call_ensures(*load, (encoder,), Err::<S, EmbeddingError>(e))
                    ||| call_ensures(*load, (pooler,), Err::<S, EmbeddingError>(e)) && exists|s: S|
                        #[trigger] call_ensures(*load, (encoder,), Ok::<S, EmbeddingError>(s))
                },
            },
    {
        match load(encoder) {
            Err(e) => Err(e),
            Ok(first) => match load(pooler) {
                Err(e) => Err(e),
                Ok(second) => Ok(
                    EcapaTdnn { backend: Backend::Split { encoder: first, pooler: second } },
                ),
            },
        }
    }

    /// Whether encoder and pooler can be run one by one.
    pub fn supports_split(&self) -> (r: bool)
        ensures
            r == (self.backend is Split),
    {
        match &self.backend {
            Backend::Split { .. } => true,
            Backend::Mono(_) => false,
        }
    }

    /// The model can be run on features of numbers `N`.
    pub open spec fn ready<N>(&self) -> bool where
        S: Fn(&Vec<N>, usize, usize) -> Result<GraphOutput<N>, EmbeddingError>,
     {
        match self.backend {
            Backend::Mono(s) => is_graph::<N, S>(s),
            Backend::Split { encoder, pooler } => is_graph::<N, S>(encoder) && is_graph::<N, S>(
                pooler,
            ),
        }
    }

    /// The embedding of features, frame by frame. A split model runs its two
    /// halves in turn.
    pub fn embed_features<N: Copy>(&self, features: &[N], n_frames: usize, n_mels: usize) -> (r:
        Result<Vec<N>, EmbeddingError>) where
        S: Fn(&Vec<N>, usize, usize) -> Result<GraphOutput<N>, EmbeddingError>,

        requires
            self.ready::<N>(),
        ensures
            match self.backend {
                Backend::Mono(s) => is_embedded(s, features@, n_frames, n_mels, r),
                Backend::Split { encoder, pooler } => exists|
                    f: Result<FrameFeatures<N>, EmbeddingError>,
                |
                    #[trigger] is_encoded(encoder, features@, n_frames, n_mels, f) && match f {
                        Err(e) => r == Err::<Vec<N>, EmbeddingError>(e),
                        Ok(f) => is_pooled(pooler, f.data@, f.n_frames, f.c_mfa, r),
                    },
            },
    {
        match &self.backend {
            Backend::Mono(session) => {
                match fill_shape((1, n_frames, n_mels), copied(features)) {
                    Err(kind) => Err(EmbeddingError::Shape(shape_text(kind))),
                    Ok(input) => {
                        let outcome: Result<GraphOutput<N>, EmbeddingError> = session(
                            &input,
                            n_frames,
                            n_mels,
                        );
                        assert(was_run(*session, features@, n_frames, n_mels, outcome));
                        read_out(outcome)
                    },
                }
            },
            Backend::Split { encoder, pooler } => {
                let f: Result<FrameFeatures<N>, EmbeddingError> = run_encoder(
                    encoder,
                    features,
                    n_frames,
                    n_mels,
                );
                assert(is_encoded(*encoder, features@, n_frames, n_mels, f));
                match f {
                    Err(e) => Err(e),
                    Ok(f) => {
                        assert(f.data@.len() == f.data.len());
                        run_pooler(pooler, f.data.as_slice(), f.n_frames, f.c_mfa)
                    },
                }
            },
        }
    }

    /// The encoder's half alone, of a split model only.
    pub fn encode_features<N: Copy>(&self, features: &[N], n_frames: usize, n_mels: usize) -> (r:
        Result<FrameFeatures<N>, EmbeddingError>) where
        S: Fn(&Vec<N>, usize, usize) -> Result<GraphOutput<N>, EmbeddingError>,

        requires
            self.ready::<N>(),
        ensures
            match self.backend {
                Backend::Mono(_) => r matches Err(e) && e is NotSplit,
                Backend::Split { encoder, .. } => is_encoded(
                    encoder,
                    features@,
                    n_frames,
                    n_mels,
                    r,
                ),
            },
    {
        match &self.backend {
            Backend::Split { encoder, .. } => run_encoder(encoder, features, n_frames, n_mels),
            Backend::Mono(_) => Err(EmbeddingError::NotSplit),
        }
    }

    /// The pooler's half alone, of a split model only.
    pub fn pool_frame_features<N: Copy>(&self, frame_data: &[N], n_frames: usize, c_mfa: usize)
        -> (r: Result<Vec<N>, EmbeddingError>) where
        S: Fn(&Vec<N>, usize, usize) -> Result<GraphOutput<N>, EmbeddingError>,

        requires
            self.ready::<N>(),
            n_frames * c_mfa <= usize::MAX,
        ensures
            match self.backend {
                Backend::Mono(_) => r matches Err(e) && e is NotSplit,
                Backend::Split { pooler, .. } => is_pooled(
                    pooler,
                    frame_data@,
                    n_frames,
                    c_mfa,
                    r,
                ),
            },
    {
        match &self.backend {
            Backend::Split { pooler, .. } => run_pooler(pooler, frame_data, n_frames, c_mfa),
            Backend::Mono(_) => Err(EmbeddingError::NotSplit),
        }
    }
}

} // verus!
