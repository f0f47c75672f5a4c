use mellonella::gating::{ApplyEnvelopeError, GateConfig, GateState};

fn sqrt(x: f32) -> f32 {
    x.sqrt()
}

fn exp(x: f32) -> f32 {
    x.exp()
}

const EPS: f32 = 1e-12;

fn cos_similarity(a: &[f32], b: &[f32]) -> f32 {
    mellonella::gating::cos_similarity(a, b, &sqrt)
}

fn cos_sim_max(emb: &[f32], pool: &[Vec<f32>]) -> f32 {
    mellonella::gating::cos_sim_max(emb, pool, &sqrt)
}

fn f0_match(f0_mean: f32, mu: f32, sigma: f32) -> f32 {
    mellonella::gating::f0_match(f0_mean, mu, sigma, &exp)
}

fn as_norm_score(emb: &[f32], raw: f32, cohort: &[Vec<f32>], top_k: usize) -> f32 {
    mellonella::gating::as_norm_score(emb, raw, cohort, top_k, EPS, &sqrt)
}

fn target_score_as_norm(
    emb: &[f32],
    pool: &[Vec<f32>],
    cohort: &[Vec<f32>],
    top_k: usize,
) -> f32 {
    mellonella::gating::target_score_as_norm(emb, pool, cohort, top_k, EPS, &sqrt)
}

fn should_admit_auto_learn(score: f32, fm: f32, speech_ms: f32, cfg: &GateConfig<f32>) -> bool {
    mellonella::gating::should_admit_auto_learn(score, fm, speech_ms, cfg)
}

fn apply_envelope(
    audio: &[f32],
    decisions: &[(usize, bool)],
    sr: u32,
    cfg: GateConfig<f32>,
) -> Result<Vec<f32>, ApplyEnvelopeError> {
    mellonella::gating::apply_envelope(audio, decisions, sr, cfg, &exp)
}

struct EnvelopeState(mellonella::gating::EnvelopeState<f32>);

impl EnvelopeState {
    fn new(cfg: GateConfig<f32>, sr: u32) -> Self {
        EnvelopeState(mellonella::gating::EnvelopeState::new(cfg, sr, &exp))
    }

    fn set_value(&mut self, v: f32) {
        self.0.set_value(v);
    }

    fn advance(&mut self, on: bool, n: usize) -> Vec<f32> {
        self.0.advance(on, n)
    }
}


fn approx_eq(a: f32, b: f32, tol: f32) -> bool {
    (a - b).abs() <= tol
}

#[test]
fn cos_similarity_basic() {
    assert!(approx_eq(
        cos_similarity(&[1.0, 0.0, 0.0], &[1.0, 0.0, 0.0]),
        1.0,
        1e-6
    ));
    assert!(approx_eq(
        cos_similarity(&[1.0, 0.0, 0.0], &[0.0, 1.0, 0.0]),
        0.0,
        1e-6
    ));
    assert!(approx_eq(
        cos_similarity(&[1.0, 0.0, 0.0], &[-1.0, 0.0, 0.0]),
        -1.0,
        1e-6
    ));
}

#[test]
fn cos_similarity_zero_vector() {
    assert!(approx_eq(
        cos_similarity(&[0.0, 0.0], &[1.0, 0.0]),
        0.0,
        0.0
    ));
}

#[test]
fn cos_sim_max_picks_best() {
    let target = [1.0_f32, 0.0];
    let pool: Vec<Vec<f32>> = vec![vec![0.5, 0.5], vec![0.99, 0.01], vec![0.0, 1.0]];
    let best = cos_sim_max(&target, &pool);
    assert!(best > 0.99 && best <= 1.0, "got {best}");
}

#[test]
fn cos_sim_max_empty_pool() {
    let pool: Vec<Vec<f32>> = vec![];
    assert!(approx_eq(cos_sim_max(&[1.0_f32], &pool), 0.0, 0.0));
}

#[test]
fn f0_match_gaussian() {
    assert!(approx_eq(f0_match(120.0, 120.0, 10.0), 1.0, 1e-6));
    assert!(approx_eq(
        f0_match(130.0, 120.0, 10.0),
        (-0.5_f32).exp(),
        1e-6
    ));
    assert!(f0_match(180.0, 120.0, 10.0) < 1e-3);
}

#[test]
fn f0_match_neutral_when_sigma_zero() {
    assert!(approx_eq(f0_match(120.0, 120.0, 0.0), 1.0, 0.0));
    assert!(approx_eq(f0_match(0.0, 120.0, 0.0), 1.0, 0.0));
}

#[test]
fn as_norm_returns_raw_when_cohort_empty() {
    let cohort: Vec<Vec<f32>> = vec![];
    let out = as_norm_score(&[1.0_f32, 0.0], 0.7, &cohort, 10);
    assert!(approx_eq(out, 0.7, 1e-6));
}

#[test]
fn as_norm_returns_raw_for_zero_query() {
    let emb = [0.0_f32; 8];
    let cohort: Vec<Vec<f32>> = (0..8)
        .map(|i| {
            let mut row = vec![0.0; 8];
            row[i] = 1.0;
            row
        })
        .collect();
    let out = as_norm_score(&emb, 0.4, &cohort, 4);
    assert!(approx_eq(out, 0.4, 1e-6));
}

#[test]
fn as_norm_normalises_to_z_score() {
    let cohort: Vec<Vec<f32>> = vec![
        vec![0.4, 0.0, 0.0],
        vec![0.5, 0.0, 0.0],
        vec![0.6, 0.0, 0.0],
        vec![0.7, 0.0, 0.0],
        vec![0.0, 1.0, 0.0], // orthogonal — score 0
    ];
    let emb = [1.0_f32, 0.0, 0.0];
    let raw: f32 = 0.8;

    // Top-K=4 impostor scores: [0.4, 0.5, 0.6, 0.7]
    let top = [0.4_f32, 0.5, 0.6, 0.7];
    let mu: f32 = top.iter().copied().sum::<f32>() / top.len() as f32;
    let var: f32 = top.iter().map(|&v| (v - mu) * (v - mu)).sum::<f32>() / top.len() as f32;
    let sigma = var.sqrt();
    let expected = (raw - mu) / sigma;

    let out = as_norm_score(&emb, raw, &cohort, 4);
    assert!(
        approx_eq(out, expected, 1e-5),
        "out={out} expected={expected}"
    );
}

#[test]
fn as_norm_handles_zero_sigma_topk() {
    let cohort: Vec<Vec<f32>> = (0..4).map(|_| vec![1.0_f32, 0.0, 0.0]).collect();
    let emb = [1.0_f32, 0.0, 0.0];
    let out = as_norm_score(&emb, 0.9, &cohort, 4);
    assert!(approx_eq(out, 0.9 - 1.0, 1e-5));
}

#[test]
fn as_norm_clamps_top_k_to_cohort_size() {
    // 3 unit basis vectors — request top-K=99
    let cohort: Vec<Vec<f32>> = vec![
        vec![1.0, 0.0, 0.0],
        vec![0.0, 1.0, 0.0],
        vec![0.0, 0.0, 1.0],
    ];
    let emb = [1.0_f32, 0.0, 0.0];
    let out = as_norm_score(&emb, 0.5, &cohort, 99);
    // impostor scores: [1.0, 0.0, 0.0]
    let scores = [1.0_f32, 0.0, 0.0];
    let mu: f32 = scores.iter().copied().sum::<f32>() / 3.0;
    let var: f32 = scores.iter().map(|&v| (v - mu) * (v - mu)).sum::<f32>() / 3.0;
    let expected = (0.5 - mu) / var.sqrt();
    assert!(
        approx_eq(out, expected, 1e-5),
        "out={out} expected={expected}"
    );
}

#[test]
fn target_score_as_norm_uses_cos_sim_max() {
    let pool: Vec<Vec<f32>> = vec![vec![1.0, 0.0, 0.0]];
    let cohort_raw: Vec<Vec<f32>> = vec![
        vec![0.5, 0.5, 0.0],
        vec![0.0, 1.0, 0.0],
        vec![0.0, 0.0, 1.0],
    ];
    let cohort: Vec<Vec<f32>> = cohort_raw
        .into_iter()
        .map(|row| {
            let n: f32 = row.iter().map(|v| v * v).sum::<f32>().sqrt();
            row.into_iter().map(|v| v / n).collect()
        })
        .collect();
    let emb = [1.0_f32, 0.0, 0.0];

    let impostor_scores: Vec<f32> = cohort
        .iter()
        .map(|row| {
            row.iter()
                .zip(emb.iter())
                .map(|(&a, &b)| a * b)
                .sum::<f32>()
        })
        .collect();
    // top-2 of [√2/2, 0.0, 0.0] = [√2/2, 0.0]
    let mut sorted = impostor_scores.clone();
    sorted.sort_by(|a, b| a.partial_cmp(b).unwrap());
    let top = &sorted[sorted.len() - 2..];
    let mu = top.iter().copied().sum::<f32>() / top.len() as f32;
    let var: f32 = top.iter().map(|&v| (v - mu) * (v - mu)).sum::<f32>() / top.len() as f32;
    let expected = (1.0 - mu) / var.sqrt();

    let out = target_score_as_norm(&emb, &pool, &cohort, 2);
    assert!(
        approx_eq(out, expected, 1e-5),
        "out={out} expected={expected}"
    );
}


#[test]
fn gate_state_pass_above_threshold() {
    let mut gate = GateState::new(GateConfig::default());
    assert!(gate.update(0.9, 20.0));
    assert!(gate.is_on());
}

#[test]
fn gate_state_hangover_keeps_pass() {
    let mut gate = GateState::new(GateConfig {
        hangover_ms: 200.0,
        ..GateConfig::default()
    });
    gate.update(0.9, 20.0);
    assert!(gate.update(0.0, 100.0));
    assert!(gate.update(0.0, 99.0));
    assert!(!gate.update(0.0, 10.0));
}

#[test]
fn gate_state_no_hangover_when_off() {
    let mut gate = GateState::new(GateConfig::default());
    assert!(!gate.update(0.0, 20.0));
    assert!(!gate.update(0.0, 20.0));
}

#[test]
fn envelope_attack_release_monotonic() {
    let cfg = GateConfig {
        attack_ms: 15.0,
        release_ms: 100.0,
        ..GateConfig::default()
    };
    let sr: u32 = 48_000;
    let mut env = EnvelopeState::new(cfg, sr);
    let n_attack = (0.1 * f64::from(sr)) as usize;
    let on = env.advance(true, n_attack);
    assert!(on[0] < *on.last().unwrap());
    assert!(*on.last().unwrap() > 0.95);
    let n_release = (0.5 * f64::from(sr)) as usize;
    let off = env.advance(false, n_release);
    assert!(off[0] > *off.last().unwrap());
    assert!(*off.last().unwrap() < 0.05);
}

#[test]
fn envelope_attack_faster_than_release() {
    let cfg = GateConfig {
        attack_ms: 15.0,
        release_ms: 100.0,
        ..GateConfig::default()
    };
    let sr: u32 = 48_000;
    let mut env_a = EnvelopeState::new(cfg, sr);
    let mut env_b = EnvelopeState::new(cfg, sr);
    let attack_curve = env_a.advance(true, sr as usize);
    env_b.set_value(1.0);
    let release_curve = env_b.advance(false, sr as usize);
    let to_half_attack = attack_curve
        .iter()
        .position(|&v| v >= 0.5)
        .expect("attack must cross 0.5");
    let to_half_release = release_curve
        .iter()
        .position(|&v| v <= 0.5)
        .expect("release must cross 0.5");
    assert!(to_half_attack > 0);
    assert!(to_half_release > 0);
    assert!(to_half_attack < to_half_release);
}

#[test]
fn apply_envelope_alignment() {
    let cfg = GateConfig {
        attack_ms: 15.0,
        release_ms: 100.0,
        ..GateConfig::default()
    };
    let sr: u32 = 48_000;
    let n = sr as usize;
    let audio = vec![1.0_f32; n];
    let decisions = [(0, true), (n / 2, false)];
    let out = apply_envelope(&audio, &decisions, sr, cfg).unwrap();
    assert_eq!(out.len(), audio.len());
    let mid = n / 2;
    assert!(out[mid - 100] > 0.95);
    assert!(out[n - 100] < 0.05);
}

#[test]
fn apply_envelope_requires_zero_start() {
    let audio = vec![1.0_f32; 10];
    let res = apply_envelope(&audio, &[(1, true)], 48_000, GateConfig::default());
    assert_eq!(
        res.unwrap_err(),
        ApplyEnvelopeError::DecisionsMustStartAtZero
    );
}

#[test]
fn apply_envelope_rejects_empty_decisions() {
    let audio = vec![1.0_f32; 10];
    let res = apply_envelope(&audio, &[], 48_000, GateConfig::default());
    assert_eq!(
        res.unwrap_err(),
        ApplyEnvelopeError::DecisionsMustStartAtZero
    );
}

// -----------------------------------------------------------------
// Auto-learn admission rule
// -----------------------------------------------------------------

#[test]
fn should_admit_auto_learn_all_pass() {
    let cfg = GateConfig::default();
    assert!(should_admit_auto_learn(0.85, 0.75, 1500.0, &cfg));
}

#[test]
fn should_admit_auto_learn_low_score_blocked() {
    let cfg = GateConfig::default();
    assert!(!should_admit_auto_learn(0.79, 0.9, 2000.0, &cfg));
}

#[test]
fn should_admit_auto_learn_low_f0_match_blocked() {
    let cfg = GateConfig::default();
    assert!(!should_admit_auto_learn(0.85, 0.5, 2000.0, &cfg));
}

#[test]
fn should_admit_auto_learn_short_run_blocked() {
    let cfg = GateConfig::default();
    assert!(!should_admit_auto_learn(0.95, 0.9, 500.0, &cfg));
}

#[test]
fn should_admit_auto_learn_boundary_inclusive() {
    let cfg = GateConfig {
        theta_learn: 0.80,
        theta_f0: 0.7,
        min_continuous_speech_sec: 1.0,
        ..GateConfig::default()
    };
    assert!(should_admit_auto_learn(0.80, 0.7, 1000.0, &cfg));
    assert!(!should_admit_auto_learn(0.799, 0.7, 1000.0, &cfg));
    assert!(!should_admit_auto_learn(0.80, 0.699, 1000.0, &cfg));
    assert!(!should_admit_auto_learn(0.80, 0.7, 999.0, &cfg));
}

#[test]
fn should_admit_auto_learn_uses_as_norm_threshold() {
    let cfg = GateConfig {
        use_as_norm: true,
        theta_pass_as_norm: 1.0,
        theta_learn_as_norm: 3.0,
        theta_f0: 0.5,
        min_continuous_speech_sec: 0.1,
        ..GateConfig::default()
    };
    assert!(should_admit_auto_learn(3.5, 0.9, 200.0, &cfg));
    assert!(!should_admit_auto_learn(2.5, 0.9, 200.0, &cfg));
}

#[test]
fn largest_scores_leave_first_among_equals_first() {
    let top = mellonella::gating::top_entries(vec![1.0_f32, 4.0, 2.0, 4.0, 3.0], 3);
    assert_eq!(top, vec![4.0, 4.0, 3.0]);
}
