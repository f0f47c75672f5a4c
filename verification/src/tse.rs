//! The streaming target-speaker-extraction model seen from outside: its shape,
//! the state tensors that travel from one chunk to the next, and the checks on
//! what goes in and comes out. Running the network itself is a parameter.
use crate::embedding::{incompatible_shape, EmbeddingError};
use crate::scalar::{lawful, num, Scalar};
use crate::text::{append_decimal, append_dims, append_sizes, bracketed, dec, quote, quoted};
use vstd::arithmetic::power2::{lemma2_to64, lemma_pow2_unfold, pow2};
use vstd::prelude::*;
use vstd::string::*;

verus! {

/// Length of the conditioning embedding.
pub const TSE_COND_DIM: usize = 192;

/// Architecture of the exported model.
#[derive(Clone, Copy, Debug, PartialEq, Eq, Structural)]
pub struct TseConfig {
    /// Encoder stride in samples. Chunks are multiples of it.
    pub enc_stride: usize,
    /// Samples the encoder and decoder carry over between chunks.
    pub enc_overlap: usize,
    /// Hidden channels of a block.
    pub hidden: usize,
    /// Kernel size of the depthwise convolution.
    pub tcn_kernel: usize,
    /// Blocks per repeat; block `b` has dilation `2^b`.
    pub n_blocks: usize,
    /// Number of repeats.
    pub n_repeats: usize,
}

/// The shipped architecture, with strides of that many samples.
pub open spec fn shipped(stride: usize) -> TseConfig {
    TseConfig {
        enc_stride: stride,
        enc_overlap: stride,
        hidden: 256,
        tcn_kernel: 3,
        n_blocks: 6,
        n_repeats: 2,
    }
}

impl TseConfig {
    /// The 16 kHz model.
    pub fn poc_16k() -> (r: Self)
        ensures
            r == shipped(16),
    {
        TseConfig {
            enc_stride: 16,
            enc_overlap: 16,
            hidden: 256,
            tcn_kernel: 3,
            n_blocks: 6,
            n_repeats: 2,
        }
    }

    /// The 48 kHz model: the 16 kHz one with strides three times as long.
    pub fn prod_48k() -> (r: Self)
        ensures
            r == shipped(48),
    {
        TseConfig {
            enc_stride: 48,
            enc_overlap: 48,
            hidden: 256,
            tcn_kernel: 3,
            n_blocks: 6,
            n_repeats: 2,
        }
    }

    /// Sample rate of the model: one stride is a millisecond.
    pub open spec fn rate(self) -> nat {
        (self.enc_stride * 1000) as nat
    }

    /// Sample rate of the model.
    pub fn sample_rate(&self) -> (r: u32)
        requires
            self.rate() <= u32::MAX,
        ensures
            r == self.rate(),
    {
        (self.enc_stride as u32) * 1000
    }

    /// Number of blocks over all repeats.
    pub open spec fn blocks(self) -> nat {
        (self.n_repeats * self.n_blocks) as nat
    }

    /// Number of state tensors: encoder overlap, three input-norm statistics,
    /// seven per block, decoder overlap.
    pub open spec fn tensors(self) -> nat {
        1 + 3 + 7 * self.blocks() + 1
    }

    /// Length of the ring that block `b` keeps.
    pub open spec fn pad(self, b: nat) -> nat {
        ((self.tcn_kernel - 1) * pow2(b)) as nat
    }

    /// The number of blocks over all repeats.
    pub fn total_blocks(&self) -> (r: usize)
        requires
            self.blocks() <= usize::MAX,
        ensures
            r == self.blocks(),
    {
        self.n_repeats * self.n_blocks
    }

    /// The number of state tensors.
    pub fn n_state_tensors(&self) -> (r: usize)
        requires
            self.tensors() <= usize::MAX,
        ensures
            r == self.tensors(),
    {
        1 + 3 + 7 * self.total_blocks() + 1
    }

    /// The dilation of block `block`, a power of two.
    pub fn block_dilation(block: usize) -> (r: usize)
        requires
            pow2(block as nat) <= usize::MAX,
        ensures
            r == pow2(block as nat),
    {
        let mut r: usize = 1;
        let mut i: usize = 0;
        proof {
            lemma2_to64();
        }
        while i < block
            invariant
                i <= block,
                r == pow2(i as nat),
                pow2(block as nat) <= usize::MAX,
            decreases block - i,
        {
            proof {
                lemma_pow2_unfold((i + 1) as nat);
                lemma_pow2_grows((i + 1) as nat, block as nat);
            }
            r = r * 2;
            i = i + 1;
        }
        r
    }

    /// The length of the ring that block `block` keeps.
    pub fn block_pad(&self, block: usize) -> (r: usize)
        requires
            self.tcn_kernel >= 1,
            pow2(block as nat) <= usize::MAX,
            self.pad(block as nat) <= usize::MAX,
        ensures
            r == self.pad(block as nat),
    {
        (self.tcn_kernel - 1) * Self::block_dilation(block)
    }

    /// The shape of state tensor `i`.
    pub open spec fn state_shape(self, i: int) -> Seq<nat> {
        if i == 0 || i == self.tensors() - 1 {
            seq![1, 1, self.enc_overlap as nat]
        } else if i >= 4 && (i - 4) % 7 == 0 {
            seq![1, self.hidden as nat, self.pad(((i - 4) / 7 % self.n_blocks as int) as nat)]
        } else {
            seq![1, 1, 1]
        }
    }

    /// All sizes of the state fit the machine.
    pub open spec fn fits(self) -> bool {
        &&& self.tensors() <= usize::MAX
        &&& self.tcn_kernel >= 1
        &&& forall|b: nat|
            b < self.n_blocks ==> #[trigger] pow2(b) <= usize::MAX && self.pad(b) <= usize::MAX
                && self.hidden * self.pad(b) <= usize::MAX
    }
}

/// Powers of two grow.
proof fn lemma_pow2_grows(a: nat, b: nat)
    requires
        a <= b,
    ensures
        pow2(a) <= pow2(b),
    decreases b,
{
    if a < b {
        lemma_pow2_grows(a, (b - 1) as nat);
        lemma_pow2_unfold(b);
    }
}

/// The two shipped models have state sizes that fit any machine.
pub proof fn lemma_shipped_models_fit(c: TseConfig)
    requires
        c.hidden == 256,
        c.tcn_kernel == 3,
        c.n_blocks == 6,
        c.n_repeats == 2,
    ensures
        c.fits(),
        c.tensors() == 89,
{
    assert(c.blocks() == 12);
    assert forall|b: nat| b < c.n_blocks implies #[trigger] pow2(b) <= usize::MAX && c.pad(b)
        <= usize::MAX && c.hidden * c.pad(b) <= usize::MAX by {
        lemma2_to64();
        lemma_pow2_grows(b, 5);
        assert(2 * pow2(b) <= 64);
    }
}

/// A dense tensor: its shape, and its entries in row-major order.
pub struct Tensor<N> {
    pub shape: Vec<usize>,
    pub data: Vec<N>,
}

/// The sizes of a shape.
pub open spec fn sizes(shape: Seq<usize>) -> Seq<nat> {
    shape.map_values(|d: usize| d as nat)
}

/// A tensor of the given three-dimensional shape that is zero everywhere.
pub open spec fn is_zero_tensor<N: Scalar>(t: Tensor<N>, shape: Seq<nat>) -> bool {
    &&& sizes(t.shape@) =~= shape
    &&& t.data@.len() == shape[0] * shape[1] * shape[2]
    &&& lawful::<N>() ==> forall|i: int|
        0 <= i < t.data@.len() ==> #[trigger] t.data@[i] == num::<N>(0)
}

fn zero_tensor<N: Scalar>(rows: usize, cols: usize) -> (t: Tensor<N>)
    requires
        rows * cols <= usize::MAX,
    ensures
        is_zero_tensor(t, seq![1, rows as nat, cols as nat]),
{
    let n: usize = rows * cols;
    let zero: N = N::from(0u16);
    let mut data: Vec<N> = Vec::new();
    let mut i: usize = 0;
    while i < n
        invariant
            i <= n,
            data@.len() == i,
            lawful::<N>() ==> zero == num::<N>(0),
            lawful::<N>() ==> forall|j: int| 0 <= j < i ==> #[trigger] data@[j] == num::<N>(0),
        decreases n - i,
    {
        data.push(zero);
        i = i + 1;
    }
    let mut shape: Vec<usize> = Vec::new();
    shape.push(1);
    shape.push(rows);
    shape.push(cols);
    assert(1 * rows * cols == rows * cols) by (nonlinear_arith);
    Tensor { shape, data }
}

/// `state` is the state before any audio.
pub open spec fn is_initial_state<N: Scalar>(config: TseConfig, state: Seq<Tensor<N>>) -> bool {
    &&& state.len() == config.tensors()
    &&& forall|i: int|
        0 <= i < state.len() ==> is_zero_tensor(#[trigger] state[i], config.state_shape(i))
}

/// The state before any audio: zeros in every tensor.
pub fn make_initial_state<N: Scalar>(config: TseConfig) -> (state: Vec<Tensor<N>>)
    requires
        config.fits(),
    ensures
        is_initial_state(config, state@),
{
    let n: usize = config.n_state_tensors();
    let mut state: Vec<Tensor<N>> = Vec::new();
    let mut i: usize = 0;
    while i < n
        invariant
            config.fits(),
            n == config.tensors(),
            i <= n,
            state@.len() == i,
            forall|j: int|
                0 <= j < i ==> is_zero_tensor(#[trigger] state@[j], config.state_shape(j)),
        decreases n - i,
    {
        if i == 0 || i == n - 1 {
            assert(1 * config.enc_overlap == config.enc_overlap) by (nonlinear_arith);
            state.push(zero_tensor::<N>(1, config.enc_overlap));
        } else if i >= 4 && (i - 4) % 7 == 0 {
            proof {
                if config.n_blocks == 0 {
                    assert(config.n_repeats * config.n_blocks == 0) by (nonlinear_arith)
                        requires
                            config.n_blocks == 0,
                    ;
                    assert(config.blocks() == 0);
                }
            }
            let b: usize = (i - 4) / 7 % config.n_blocks;
            assert(pow2(b as nat) <= usize::MAX);
            let pad: usize = config.block_pad(b);
            state.push(zero_tensor::<N>(config.hidden, pad));
        } else {
            state.push(zero_tensor::<N>(1, 1));
        }
        i = i + 1;
    }
    state
}

/// What can go wrong around the model.
#[derive(Debug)]
pub enum TseError {
    /// The runtime refused the model or its input.
    Ort(String),
    /// A tensor could not be built.
    Shape(String),
    /// The chunk is empty or no multiple of the encoder stride.
    InvalidChunkLength { got: usize, enc_stride: usize },
    /// The conditioning embedding has the wrong length.
    InvalidCondLength { got: usize, expected: usize },
    /// An output has the wrong shape.
    UnexpectedOutputShape { name: String, got: Vec<i64>, expected: Vec<usize> },
}

impl TseError {
    /// The words of the error.
    pub open spec fn words(self) -> Seq<char> {
        match self {
            TseError::Ort(e) => "ONNX Runtime error: "@ + e@,
            TseError::Shape(e) => "ndarray shape error: "@ + e@,
            TseError::InvalidChunkLength { got, enc_stride } => "TSE chunk length "@ + dec(
                got as nat,
            ) + " must be a positive multiple of enc_stride "@ + dec(enc_stride as nat),
            TseError::InvalidCondLength { got, expected } => "TSE cond_embedding length "@ + dec(
                got as nat,
            ) + " != expected "@ + dec(expected as nat),
            TseError::UnexpectedOutputShape { name, got, expected } => "TSE ONNX output "@ + quoted(
                name@,
            ) + " has shape "@ + bracketed(got@.map_values(|x: i64| x as int)) + ", expected "@
                + bracketed(expected@.map_values(|x: usize| x as int)),
        }
    }

    /// The error in words.
    pub fn message(&self) -> (r: String)
        ensures
            r@ == self.words(),
    {
        match self {
            TseError::Ort(e) => "ONNX Runtime error: ".to_owned().concat(e.as_str()),
            TseError::Shape(e) => "ndarray shape error: ".to_owned().concat(e.as_str()),
            TseError::InvalidChunkLength { got, enc_stride } => {
                let mut s: String = "TSE chunk length ".to_owned();
                append_decimal(&mut s, *got as u64);
                s.append(" must be a positive multiple of enc_stride ");
                append_decimal(&mut s, *enc_stride as u64);
                s
            },
            TseError::InvalidCondLength { got, expected } => {
                let mut s: String = "TSE cond_embedding length ".to_owned();
                append_decimal(&mut s, *got as u64);
                s.append(" != expected ");
                append_decimal(&mut s, *expected as u64);
                s
            },
            TseError::UnexpectedOutputShape { name, got, expected } => {
                let mut s: String = "TSE ONNX output ".to_owned();
                let q: String = quote(name.as_str());
                s.append(q.as_str());
                s.append(" has shape ");
                append_dims(&mut s, got.as_slice());
                s.append(", expected ");
                append_sizes(&mut s, expected.as_slice());
                s
            },
        }
    }
}

/// What one run of the model gives: the extracted samples with the shape they
/// were labelled with, and the next state.
pub struct TseReply<N> {
    pub dims: Vec<i64>,
    pub extracted: Vec<N>,
    pub state: Vec<Tensor<N>>,
}

/// A chunk of `len` samples can be fed to a model with the given stride.
pub open spec fn chunk_ok(len: nat, enc_stride: nat) -> bool {
    len > 0 && len % enc_stride == 0
}

/// `dims` is the shape of one row of `len` samples.
pub open spec fn is_row(dims: Seq<i64>, len: nat) -> bool {
    dims.len() == 2 && dims[0] == 1 && dims[1] == len
}

/// The model with the state it carries from chunk to chunk.
pub struct TseSession<N> {
    config: TseConfig,
    state: Vec<Tensor<N>>,
}

impl<N: Scalar> TseSession<N> {
    /// The architecture.
    pub closed spec fn model(&self) -> TseConfig {
        self.config
    }

    /// The carried state.
    pub closed spec fn carried(&self) -> Vec<Tensor<N>> {
        self.state
    }

    /// The stride is positive and the state sizes fit the machine.
    pub open spec fn wf(&self) -> bool {
        self.model().enc_stride > 0 && self.model().fits()
    }

    /// A session before any audio.
    pub fn new(config: TseConfig) -> (r: Self)
        requires
            config.enc_stride > 0,
            config.fits(),
        ensures
            r.wf(),
            r.model() == config,
            is_initial_state(config, r.carried()@),
    {
        TseSession { config, state: make_initial_state(config) }
    }

    /// A session around the 16 kHz model. `load` reads the model from `path`.
    pub fn from_onnx_path<L: Fn(&str) -> Result<(), TseError>>(path: &str, load: &L) -> (r: Result<
        Self,
        TseError,
    >)
        requires
            call_requires(*load, (path,)),
        ensures
            is_opened(shipped(16), path, *load, r),
    {
        proof {
            lemma_shipped_models_fit(shipped(16));
        }
        Self::from_onnx_path_with_config(path, TseConfig::poc_16k(), load)
    }

    /// A session around a model of the given architecture. `load` reads the
    /// model from `path`; one that cannot be read is refused with its error.
    pub fn from_onnx_path_with_config<L: Fn(&str) -> Result<(), TseError>>(
        path: &str,
        config: TseConfig,
        load: &L,
    ) -> (r: Result<Self, TseError>)
        requires
            config.enc_stride > 0,
            config.fits(),
            call_requires(*load, (path,)),
        ensures
            is_opened(config, path, *load, r),
    {
        let loaded: Result<(), TseError> = load(path);
        match loaded {
            Err(e) => Err(e),
            Ok(read) => {
                assert(read == ());
                Ok(TseSession::new(config))
            },
        }
    }

    pub fn config(&self) -> (r: TseConfig)
        ensures
            r == self.model(),
    {
        self.config
    }

    pub fn n_state_tensors(&self) -> (r: usize)
        requires
            self.wf(),
        ensures
            r == self.model().tensors(),
    {
        self.config.n_state_tensors()
    }

    /// Forgets all audio heard so far.
    pub fn reset(&mut self)
        requires
            old(self).wf(),
        ensures
            final(self).wf(),
            final(self).model() == old(self).model(),
            is_initial_state(final(self).model(), final(self).carried()@),
    {
        self.state = make_initial_state(self.config);
    }

    /// Extracts one chunk, as [`TseSession::process_chunk_slice`] does, with a
    /// conditioning embedding whose length its type fixes.
    pub fn process_chunk<M: Fn(&[N], &[N], &Vec<Tensor<N>>) -> Result<TseReply<N>, TseError>>(
        &mut self,
        chunk: &[N],
        cond_embedding: &[N; TSE_COND_DIM],
        run: &M,
    ) -> (r: Result<Vec<N>, TseError>)
        requires
            old(self).wf(),
            forall|a: &[N], b: &[N], c: &Vec<Tensor<N>>| call_requires(*run, (a, b, c)),
        ensures
            final(self).wf(),
            final(self).model() == old(self).model(),
            exists|cond: &[N]|
                cond@ == cond_embedding@ && #[trigger] chunk_step(
                    old(self).model(),
                    old(self).carried(),
                    chunk,
                    cond,
                    *run,
                    final(self).carried(),
                    r,
                ),
    {
        self.process_chunk_slice(chunk, cond_embedding.as_slice(), run)
    }

    /// Extracts one chunk. `run` is given the chunk, the conditioning embedding
    /// and the carried state; its reply must be one row of as many samples as
    /// the chunk, and its state replaces the carried one. On any error the
    /// carried state stays.
    pub fn process_chunk_slice<M: Fn(&[N], &[N], &Vec<Tensor<N>>) -> Result<TseReply<N>, TseError>>(
        &mut self,
        chunk: &[N],
        cond_embedding: &[N],
        run: &M,
    ) -> (r: Result<Vec<N>, TseError>)
        requires
            old(self).wf(),
            forall|a: &[N], b: &[N], c: &Vec<Tensor<N>>| call_requires(*run, (a, b, c)),
        ensures
            final(self).wf(),
            final(self).model() == old(self).model(),
            chunk_step(
                old(self).model(),
                old(self).carried(),
                chunk,
                cond_embedding,
                *run,
                final(self).carried(),
                r,
            ),
    {
        let chunk_len: usize = chunk.len();
        if chunk_len == 0 || chunk_len % self.config.enc_stride != 0 {
            return Err(
                TseError::InvalidChunkLength {
                    got: chunk_len,
                    enc_stride: self.config.enc_stride,
                },
            );
        }
        if cond_embedding.len() != TSE_COND_DIM {
            return Err(
                TseError::InvalidCondLength { got: cond_embedding.len(), expected: TSE_COND_DIM },
            );
        }
        let result: Result<TseReply<N>, TseError> = run(chunk, cond_embedding, &self.state);
        match result {
            Err(e) => Err(e),
            Ok(reply) => {
                if reply.dims.len() != 2 || reply.dims[0] != 1 || reply.dims[1] < 0
                    || reply.dims[1] as u64 != chunk_len as u64 {
                    let mut expected: Vec<usize> = Vec::new();
                    expected.push(1);
                    expected.push(chunk_len);
                    assert(expected@ =~= seq![1usize, chunk_len]);
                    return Err(
                        TseError::UnexpectedOutputShape {
                            name: "extracted_chunk".to_owned(),
                            got: reply.dims,
                            expected,
                        },
                    );
                }
                self.state = reply.state;
                Ok(reply.extracted)
            },
        }
    }
}

/// `r` is a fresh session of that architecture where `load` reads `path`, and
/// the error of `load` where it does not.
pub open spec fn is_opened<N: Scalar, L: Fn(&str) -> Result<(), TseError>>(
    config: TseConfig,
    path: &str,
    load: L,
    r: Result<TseSession<N>, TseError>,
) -> bool {
    match r {
        Ok(session) => {
            &&& call_ensures(load, (path,), Ok::<(), TseError>(()))
            &&& session.wf()
            &&& session.model() == config
            &&& is_initial_state(config, session.carried()@)
        },
        Err(e) => call_ensures(load, (path,), Err::<(), TseError>(e)),
    }
}

/// One step of the session: what it returns and carries on, given the outcome
/// of `run`.
pub open spec fn chunk_step<
    N: Scalar,
    M: Fn(&[N], &[N], &Vec<Tensor<N>>) -> Result<TseReply<N>, TseError>,
>(
    config: TseConfig,
    state: Vec<Tensor<N>>,
    chunk: &[N],
    cond: &[N],
    run: M,
    next: Vec<Tensor<N>>,
    r: Result<Vec<N>, TseError>,
) -> bool {
    if !chunk_ok(chunk@.len(), config.enc_stride as nat) {
        &&& next == state
        &&& r == Err::<Vec<N>, TseError>(
            TseError::InvalidChunkLength {
                got: chunk@.len() as usize,
                enc_stride: config.enc_stride,
            },
        )
    } else if cond@.len() != TSE_COND_DIM {
        &&& next == state
        &&& r == Err::<Vec<N>, TseError>(
            TseError::InvalidCondLength { got: cond@.len() as usize, expected: TSE_COND_DIM },
        )
    } else {
        exists|outcome: Result<TseReply<N>, TseError>|
            {
                &&& #[trigger] call_ensures(run, (chunk, cond, &state), outcome)
                &&& match outcome {
                    Err(e) => next == state && r == Err::<Vec<N>, TseError>(e),
                    Ok(reply) => if is_row(reply.dims@, chunk@.len()) {
                        next == reply.state && r == Ok::<Vec<N>, TseError>(reply.extracted)
                    } else {
                        &&& next == state
                        &&& r matches Err(TseError::UnexpectedOutputShape { name, got, expected })
                        &&& name@ == "extracted_chunk"@
                        &&& got == reply.dims
                        &&& expected@ == seq![1usize, chunk@.len() as usize]
                    },
                }
            }
    }
}

/// The product of the first `n` sizes.
pub open spec fn volume_of(sizes: Seq<usize>, n: nat) -> nat
    decreases n,
{
    if n == 0 {
        1
    } else {
        volume_of(sizes, (n - 1) as nat) * sizes[n - 1] as nat
    }
}

/// `r` is the error of the embedding side that stands for `e`.
pub open spec fn is_embedding_error(e: TseError, r: EmbeddingError) -> bool {
    match e {
        TseError::Ort(t) => r == EmbeddingError::Ort(t),
        TseError::Shape(t) => r == EmbeddingError::Shape(t),
        TseError::UnexpectedOutputShape { got, expected, .. } => r
            matches EmbeddingError::UnexpectedOutputShape { got: g, expected_dim } && g@ == got@
            && expected_dim == volume_of(expected@, expected@.len()),
        _ => r.is_incompatible(),
    }
}

impl TseError {
    /// The error of the embedding side that stands for this one.
    pub fn into_embedding(self) -> (r: EmbeddingError)
        requires
            self matches TseError::UnexpectedOutputShape { expected, .. } ==> forall|n: nat|
                n <= expected@.len() ==> #[trigger] volume_of(expected@, n) <= usize::MAX,
        ensures
            is_embedding_error(self, r),
    {
        match self {
            TseError::Ort(t) => EmbeddingError::Ort(t),
            TseError::Shape(t) => EmbeddingError::Shape(t),
            TseError::UnexpectedOutputShape { name: _, got, expected } => {
                let mut product: usize = 1;
                let mut i: usize = 0;
                while i < expected.len()
                    invariant
                        i <= expected@.len(),
                        product == volume_of(expected@, i as nat),
                        forall|n: nat|
                            n <= expected@.len() ==> #[trigger] volume_of(expected@, n)
                                <= usize::MAX,
                    decreases expected@.len() - i,
                {
                    assert(volume_of(expected@, (i + 1) as nat) <= usize::MAX);
                    product = product * expected[i];
                    i = i + 1;
                }
                EmbeddingError::UnexpectedOutputShape { got, expected_dim: product }
            },
            _ => incompatible_shape(),
        }
    }
}

} // verus!
