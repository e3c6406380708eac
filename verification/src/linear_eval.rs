use crate::color::Color;
use crate::wps_features::{WPSFeatures, WPS_COUNT};
use vstd::prelude::*;

verus! {

/// An evaluation that is a weighted sum of features: one sum per color, the sum of the
/// side to move minus that of the other, plus a bonus for moving.
#[derive(Debug)]
pub struct LinearEvaluator {
    features: WPSFeatures,
    to_move_weight: i16,
    feature_weights: Vec<i16>,
}

impl LinearEvaluator {
    /// The weight of each feature.
    pub closed spec fn weights(self) -> Seq<i16> {
        self.feature_weights@
    }

    /// The bonus of the side to move.
    pub closed spec fn to_move_weight(self) -> i16 {
        self.to_move_weight
    }

    /// An evaluator with one weight per feature.
    pub fn new(features: WPSFeatures, to_move_weight: i16, feature_weights: &[i16]) -> (r: LinearEvaluator)
        requires
            feature_weights@.len() == WPS_COUNT,
        ensures
            r.weights() == feature_weights@,
            r.to_move_weight() == to_move_weight,
    {
        let mut weights: Vec<i16> = Vec::new();
        let mut i: usize = 0;
        while i < feature_weights.len()
            invariant
                i <= feature_weights@.len(),
                weights@ == feature_weights@.subrange(0, i as int),
            decreases feature_weights@.len() - i,
        {
            weights.push(feature_weights[i]);
            proof {
                assert(weights@ =~= feature_weights@.subrange(0, i + 1));
            }
            i = i + 1;
        }
        assert(weights@ =~= feature_weights@);
        LinearEvaluator { features, to_move_weight, feature_weights: weights }
    }

    /// The features weighed.
    pub fn features(&self) -> WPSFeatures {
        self.features
    }

    /// The sum of no features.
    pub fn new_accumulator(&self) -> (r: i32)
        ensures
            r == 0,
    {
        0
    }

    /// Adds the weight of a feature.
    pub fn add_feature(&self, accumulator: &mut i32, feature: usize)
        requires
            feature < self.weights().len(),
            i32::MIN <= *old(accumulator) + self.weights()[feature as int] <= i32::MAX,
        ensures
            *final(accumulator) == *old(accumulator) + self.weights()[feature as int],
    {
        *accumulator = *accumulator + self.feature_weights[feature] as i32;
    }

    /// Takes off the weight of a feature.
    pub fn remove_feature(&self, accumulator: &mut i32, feature: usize)
        requires
            feature < self.weights().len(),
            i32::MIN <= *old(accumulator) - self.weights()[feature as int] <= i32::MAX,
        ensures
            *final(accumulator) == *old(accumulator) - self.weights()[feature as int],
    {
        *accumulator = *accumulator - self.feature_weights[feature] as i32;
    }

    /// The evaluation for the side to move, from the sums of both colors (by color index).
    pub fn evaluate(&self, accumulators: &[i32; 2], to_move: Color) -> (r: i32)
        requires
            i32::MIN <= accumulators@[to_move.spec_index() as int] - accumulators@[to_move.spec_opposite().spec_index() as int]
                + self.to_move_weight() <= i32::MAX,
        ensures
            r == accumulators@[to_move.spec_index() as int] - accumulators@[to_move.spec_opposite().spec_index() as int]
                + self.to_move_weight(),
    {
        let mine = accumulators[to_move.index()];
        let theirs = accumulators[to_move.opposite().index()];
        proof {
            assert(mine as int - theirs as int + self.to_move_weight as int <= i32::MAX);
        }
        (mine as i64 - theirs as i64 + self.to_move_weight as i64) as i32
    }
}

} // verus!
