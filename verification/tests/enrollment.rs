use mellonella::enrollment::{
    EmbeddingPoolConfig, EnrollmentMetadata, PersistenceError, PoolPayload,
};
use std::collections::VecDeque;

fn sqrt(x: f32) -> f32 {
    x.sqrt()
}

fn cos_similarity(a: &[f32], b: &[f32]) -> f32 {
    mellonella::gating::cos_similarity(a, b, &sqrt)
}

/// The pool with square roots of `f32`, and its stored form as JSON.
struct EmbeddingPool(mellonella::enrollment::EmbeddingPool<f32>);

impl std::fmt::Debug for EmbeddingPool {
    fn fmt(&self, f: &mut std::fmt::Formatter<'_>) -> std::fmt::Result {
        f.write_str("EmbeddingPool")
    }
}

fn rows(v: &serde_json::Value) -> Vec<Vec<f32>> {
    v.as_array()
        .map(|rows| {
            rows.iter()
                .map(|r| {
                    r.as_array()
                        .unwrap()
                        .iter()
                        .map(|x| x.as_f64().unwrap() as f32)
                        .collect()
                })
                .collect()
        })
        .unwrap_or_default()
}

impl EmbeddingPool {
    fn new(cfg: EmbeddingPoolConfig<f32>) -> Self {
        EmbeddingPool(mellonella::enrollment::EmbeddingPool::new(cfg))
    }

    fn add_anchors<I: IntoIterator<Item = Vec<f32>>>(&mut self, anchors: I) {
        self.0.add_anchors(anchors.into_iter().collect());
    }

    fn anchors(&self) -> &[Vec<f32>] {
        self.0.anchors()
    }

    fn auto_learn(&self) -> &VecDeque<Vec<f32>> {
        self.0.auto_learn()
    }

    fn metadata(&self) -> EnrollmentMetadata<f32> {
        self.0.metadata()
    }

    fn set_f0_stats(&mut self, mu: f32, sigma: f32) {
        self.0.set_f0_stats(mu, sigma);
    }

    fn anchor_distance(&self, emb: &[f32]) -> Option<f32> {
        self.0.anchor_distance(emb, &sqrt)
    }

    fn anchor_centroid(&self) -> Option<&[f32]> {
        self.0.anchor_centroid()
    }

    fn match_score(&self, emb: &[f32]) -> f32 {
        self.0.match_score(emb, &sqrt)
    }

    fn can_auto_learn(&self, emb: &[f32]) -> bool {
        self.0.can_auto_learn(emb, &sqrt)
    }

    fn add_auto_learn(&mut self, emb: Vec<f32>) -> bool {
        self.0.add_auto_learn(emb, &sqrt)
    }

    fn maybe_reset(&mut self) -> bool {
        self.0.maybe_reset(&sqrt)
    }

    fn to_json(&self) -> Result<String, serde_json::Error> {
        let p = self.0.to_payload();
        let mut meta = serde_json::Map::new();
        meta.insert("f0_mu".to_string(), serde_json::to_value(p.metadata.f0_mu)?);
        meta.insert("f0_sigma".to_string(), serde_json::to_value(p.metadata.f0_sigma)?);
        let mut all = serde_json::Map::new();
        all.insert("version".to_string(), serde_json::to_value(p.version)?);
        all.insert("anchors".to_string(), serde_json::to_value(p.anchors)?);
        all.insert("auto_learn".to_string(), serde_json::to_value(p.auto_learn)?);
        all.insert("metadata".to_string(), serde_json::Value::Object(meta));
        serde_json::to_string(&serde_json::Value::Object(all))
    }

    fn from_json(body: &str, cfg: EmbeddingPoolConfig<f32>) -> Result<Self, PersistenceError> {
        let v: serde_json::Value =
            serde_json::from_str(body).map_err(|e| PersistenceError::Json(e.to_string()))?;
        let payload = PoolPayload {
            version: v["version"].as_u64().unwrap() as u32,
            anchors: rows(&v["anchors"]),
            auto_learn: rows(&v["auto_learn"]),
            metadata: EnrollmentMetadata {
                f0_mu: v["metadata"]["f0_mu"].as_f64().unwrap_or(0.0) as f32,
                f0_sigma: v["metadata"]["f0_sigma"].as_f64().unwrap_or(0.0) as f32,
            },
        };
        mellonella::enrollment::EmbeddingPool::from_payload(payload, cfg).map(EmbeddingPool)
    }
}

fn unit(v: &[f32]) -> Vec<f32> {
    let n: f32 = v.iter().map(|x| x * x).sum::<f32>().sqrt();
    v.iter().map(|x| x / n).collect()
}

#[test]
fn anchor_distance_zero_for_identical() {
    let mut pool = EmbeddingPool::new(EmbeddingPoolConfig::default());
    let anchor = unit(&[1.0, 0.0, 0.0, 0.0, 0.0, 0.0, 0.0, 0.0]);
    pool.add_anchors([anchor.clone()]);
    let d = pool.anchor_distance(&anchor).unwrap();
    assert!(d.abs() < 1e-6, "d={d}");
}

#[test]
fn anchor_without_a_cosine_is_infinitely_far() {
    let mut pool = EmbeddingPool::new(EmbeddingPoolConfig::default());
    pool.add_anchors(vec![vec![f32::NAN, 0.0]]);
    assert_eq!(pool.anchor_distance(&[1.0, 0.0]), Some(f32::INFINITY));
    // One that has a cosine is nearer.
    pool.add_anchors(vec![vec![0.0, 1.0]]);
    assert_eq!(pool.anchor_distance(&[0.0, 1.0]), Some(0.0));
    let copy = pool.0.clone();
    assert_eq!(copy.anchors().len(), 2);
    assert!(format!("{copy:?}").starts_with("EmbeddingPool"));
}

#[test]
fn anchor_distance_none_when_empty() {
    let pool = EmbeddingPool::new(EmbeddingPoolConfig::default());
    assert!(pool.anchor_distance(&[1.0, 0.0]).is_none());
}

#[test]
fn anchor_centroid_none_when_empty() {
    let pool = EmbeddingPool::new(EmbeddingPoolConfig::default());
    assert!(pool.anchor_centroid().is_none());
}

#[test]
fn anchor_centroid_single_anchor_is_verbatim() {
    // Centroid of one anchor is that anchor byte-for-byte (each
    // f32 multiplied by 1.0).
    let mut pool = EmbeddingPool::new(EmbeddingPoolConfig::default());
    let anchor = unit(&[0.3, -0.7, 0.1, 0.64]);
    pool.add_anchors([anchor.clone()]);
    assert_eq!(pool.anchor_centroid().unwrap(), anchor.as_slice());
}

#[test]
fn anchor_centroid_is_elementwise_mean() {
    let mut pool = EmbeddingPool::new(EmbeddingPoolConfig::default());
    pool.add_anchors([vec![1.0_f32, 3.0, -1.0], vec![3.0_f32, 1.0, 1.0]]);
    assert_eq!(pool.anchor_centroid().unwrap(), &[2.0, 2.0, 0.0]);
}

#[test]
fn add_anchors_recomputes_centroid() {
    let mut pool = EmbeddingPool::new(EmbeddingPoolConfig::default());
    pool.add_anchors([vec![0.0_f32, 2.0]]);
    assert_eq!(pool.anchor_centroid().unwrap(), &[0.0, 2.0]);
    pool.add_anchors([vec![2.0_f32, 0.0]]);
    assert_eq!(pool.anchor_centroid().unwrap(), &[1.0, 1.0]);
}

#[test]
fn match_score_single_anchor_equals_cos_similarity() {
    // Single anchor, no auto-learn: match_score reduces to
    // cos_similarity against that anchor.
    let mut pool = EmbeddingPool::new(EmbeddingPoolConfig::default());
    let anchor = unit(&[1.0, 0.0, 0.0]);
    pool.add_anchors([anchor.clone()]);
    let emb = unit(&[0.8, 0.6, 0.0]);
    assert!((pool.match_score(&emb) - cos_similarity(&emb, &anchor)).abs() < 1e-6);
}

#[test]
fn match_score_uses_centroid_not_best_anchor() {
    // Two opposed anchors → centroid near the bisector. A probe
    // aligned with one anchor scores against the *centroid*, which
    // is lower than the best single anchor would give.
    let mut pool = EmbeddingPool::new(EmbeddingPoolConfig::default());
    let a = unit(&[1.0, 1.0, 0.0]);
    let b = unit(&[1.0, -1.0, 0.0]);
    pool.add_anchors([a.clone(), b]);
    let probe = a.clone();
    let centroid = pool.anchor_centroid().unwrap();
    let score = pool.match_score(&probe);
    assert!((score - cos_similarity(&probe, centroid)).abs() < 1e-6);
    // The best anchor alone would give cos(probe, a) = 1.0; the
    // centroid score is strictly below that.
    assert!(
        score < 0.999,
        "centroid score should be below the per-anchor max: {score}"
    );
}

#[test]
fn match_score_maxes_centroid_with_auto_learn() {
    let mut pool = EmbeddingPool::new(EmbeddingPoolConfig {
        anchor_distance_threshold: 1.0,
        ..EmbeddingPoolConfig::default()
    });
    pool.add_anchors([unit(&[1.0, 0.0, 0.0])]);
    let probe = unit(&[0.0, 1.0, 0.0]);
    // Orthogonal to the anchor → centroid score ~0.
    assert!(pool.match_score(&probe) < 1e-6);
    // Admit an auto-learn entry that matches the probe → score jumps.
    assert!(pool.add_auto_learn(probe.clone()));
    assert!((pool.match_score(&probe) - 1.0).abs() < 1e-6);
}

#[test]
fn match_score_zero_for_empty_pool() {
    let pool = EmbeddingPool::new(EmbeddingPoolConfig::default());
    assert_eq!(pool.match_score(&[1.0, 0.0, 0.0]), 0.0);
}

#[test]
fn can_auto_learn_rejects_far_embedding() {
    let mut pool = EmbeddingPool::new(EmbeddingPoolConfig {
        anchor_distance_threshold: 0.4,
        ..EmbeddingPoolConfig::default()
    });
    pool.add_anchors([unit(&[1.0, 0.0, 0.0])]);
    let near = unit(&[0.95, 0.05, 0.0]);
    let far = unit(&[0.0, 0.0, 1.0]);
    assert!(pool.can_auto_learn(&near));
    assert!(!pool.can_auto_learn(&far));
}

#[test]
fn add_auto_learn_respects_fifo_bound() {
    let mut pool = EmbeddingPool::new(EmbeddingPoolConfig {
        auto_learn_max_size: 3,
        ..EmbeddingPoolConfig::default()
    });
    pool.add_anchors([unit(&[1.0, 0.0, 0.0])]);
    let candidates: Vec<Vec<f32>> = (1..=5)
        .map(|i| unit(&[1.0, 0.01 * i as f32, 0.0]))
        .collect();
    for c in &candidates {
        pool.add_auto_learn(c.clone());
    }
    assert_eq!(pool.auto_learn().len(), 3);
    let last = pool.auto_learn().back().unwrap();
    for (a, b) in last.iter().zip(candidates[4].iter()) {
        assert!((a - b).abs() < 1e-6);
    }
}

#[test]
fn no_auto_learn_without_anchor() {
    let mut pool = EmbeddingPool::new(EmbeddingPoolConfig::default());
    assert!(!pool.add_auto_learn(unit(&[1.0, 0.0])));
}

#[test]
fn maybe_reset_clears_drifted_pool() {
    // Admission threshold 1.0 lets the orthogonal vector in.
    let mut pool = EmbeddingPool::new(EmbeddingPoolConfig {
        anchor_distance_threshold: 1.0,
        anchor_reset_threshold: 0.5,
        ..EmbeddingPoolConfig::default()
    });
    pool.add_anchors([unit(&[1.0, 0.0, 0.0])]);
    for _ in 0..5 {
        assert!(pool.add_auto_learn(unit(&[0.0, 1.0, 0.0])));
    }
    assert!(pool.maybe_reset());
    assert!(pool.auto_learn().is_empty());
}

#[test]
fn maybe_reset_keeps_healthy_pool() {
    let mut pool = EmbeddingPool::new(EmbeddingPoolConfig {
        anchor_distance_threshold: 0.5,
        anchor_reset_threshold: 0.5,
        ..EmbeddingPoolConfig::default()
    });
    pool.add_anchors([unit(&[1.0, 0.0, 0.0])]);
    for i in 1..=3 {
        pool.add_auto_learn(unit(&[1.0, 0.001 * i as f32, 0.0]));
    }
    assert!(!pool.maybe_reset());
    assert_eq!(pool.auto_learn().len(), 3);
}

#[test]
fn iter_yields_anchors_then_autolearn() {
    let mut pool = EmbeddingPool::new(EmbeddingPoolConfig::default());
    let a = unit(&[1.0, 0.0]);
    let b = unit(&[0.0, 1.0]);
    pool.add_anchors([a.clone()]);
    let mut payload = pool.0.to_payload();
    payload.auto_learn.push(b.clone());
    let pool = EmbeddingPool(
        mellonella::enrollment::EmbeddingPool::from_payload(
            payload,
            EmbeddingPoolConfig::default(),
        )
        .unwrap(),
    );
    let seen: Vec<Vec<f32>> = pool.0.iter().iter().map(|e| e.to_vec()).collect();
    assert_eq!(seen.len(), 2);
    for (got, want) in seen[0].iter().zip(a.iter()) {
        assert!((got - want).abs() < 1e-6);
    }
    for (got, want) in seen[1].iter().zip(b.iter()) {
        assert!((got - want).abs() < 1e-6);
    }
}

#[test]
fn set_f0_stats_round_trip() {
    let mut pool = EmbeddingPool::new(EmbeddingPoolConfig::default());
    pool.set_f0_stats(180.0, 25.0);
    let m = pool.metadata();
    assert_eq!(m.f0_mu, 180.0);
    assert_eq!(m.f0_sigma, 25.0);
}

#[test]
fn json_round_trip_preserves_state() {
    let cfg = EmbeddingPoolConfig::default();
    let mut pool = EmbeddingPool::new(cfg);
    let anchor = unit(&[1.0, 0.0]);
    pool.add_anchors([anchor.clone()]);
    pool.set_f0_stats(180.0, 25.0);
    assert!(pool.add_auto_learn(unit(&[0.99, 0.01])));

    let body = pool.to_json().unwrap();
    let parsed: serde_json::Value = serde_json::from_str(&body).unwrap();
    assert_eq!(parsed["version"], 1);
    assert_eq!(parsed["anchors"].as_array().unwrap().len(), 1);

    let restored = EmbeddingPool::from_json(&body, cfg).unwrap();
    assert_eq!(restored.anchors().len(), 1);
    assert_eq!(restored.metadata().f0_mu, 180.0);
    assert_eq!(restored.metadata().f0_sigma, 25.0);
    assert_eq!(restored.auto_learn().len(), 1);
}

#[test]
fn from_json_rejects_unknown_version() {
    let cfg = EmbeddingPoolConfig::default();
    let body = r#"{"version": 99, "anchors": [], "auto_learn": [], "metadata": {}}"#;
    match EmbeddingPool::from_json(body, cfg) {
        Err(PersistenceError::UnsupportedVersion(99)) => {}
        other => panic!("expected UnsupportedVersion(99), got {other:?}"),
    }
}

#[test]
fn from_json_clamps_auto_learn_to_config() {
    // Saved with 5 auto-learn entries; config caps at 2 — load
    // drops the oldest.
    let saved = r#"{
        "version": 1,
        "anchors": [],
        "auto_learn": [[1.0], [2.0], [3.0], [4.0], [5.0]],
        "metadata": {"f0_mu": 0.0, "f0_sigma": 0.0}
    }"#;
    let cfg = EmbeddingPoolConfig {
        auto_learn_max_size: 2,
        ..EmbeddingPoolConfig::default()
    };
    let pool = EmbeddingPool::from_json(saved, cfg).unwrap();
    assert_eq!(pool.auto_learn().len(), 2);
    assert_eq!(pool.auto_learn()[0][0], 4.0);
    assert_eq!(pool.auto_learn()[1][0], 5.0);
}
