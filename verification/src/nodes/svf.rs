//! The rules of the state variable filter nodes.

use vstd::arithmetic::power2::{
    lemma2_to64, lemma_pow2_pos, lemma_pow2_strictly_increases, pow2,
};
use vstd::bits::lemma_u64_shl_is_mul;
use vstd::prelude::*;

verus! {

/// The type of a state variable filter.
#[derive(Debug, Clone, Copy, PartialEq, Eq, Structural)]
pub enum SvfType {
    /// Lowpass (-12 dB per octave)
    Lowpass,
    /// Lowpass (-24 dB per octave)
    LowpassX2,
    /// Highpass (-12 dB per octave)
    Highpass,
    /// Highpass (-24 dB per octave)
    HighpassX2,
    /// Bandpass (-12 dB per octave)
    Bandpass,
    LowShelf,
    HighShelf,
    Bell,
    Notch,
    Allpass,
}

impl Default for SvfType {
    fn default() -> (filter_type: Self)
        ensures
            filter_type == SvfType::Lowpass,
    {
        SvfType::Lowpass
    }
}

impl SvfType {
    /// The number of filters in a row that a type takes.
    pub open spec fn filters(self) -> int {
        match self {
            SvfType::LowpassX2 | SvfType::HighpassX2 | SvfType::Bandpass => 2,
            _ => 1,
        }
    }

    /// The number of filters in a row that this type takes.
    pub fn num_filters(&self) -> (num: usize)
        ensures
            num == self.filters(),
            num == 2 <==> *self is LowpassX2 || *self is HighpassX2 || *self is Bandpass,
            num == 1 <==> *self is Lowpass || *self is Highpass || *self is LowShelf
                || *self is HighShelf || *self is Bell || *self is Notch || *self is Allpass,
    {
        match self {
            SvfType::LowpassX2 => 2,
            SvfType::HighpassX2 => 2,
            SvfType::Bandpass => 2,
            _ => 1,
        }
    }

    /// Whether the gain has effect on this type.
    pub fn uses_gain(&self) -> (uses: bool)
        ensures
            uses == (*self is LowShelf || *self is HighShelf || *self is Bell),
    {
        match self {
            SvfType::LowShelf => true,
            SvfType::HighShelf => true,
            SvfType::Bell => true,
            _ => false,
        }
    }
}

/// Each type takes one filter, but for those of -24 dB per octave and the bandpass, which is
/// a lowpass behind a highpass: these take two.
pub proof fn law_steep_types_take_two_filters(filter_type: SvfType)
    ensures
        filter_type.filters() == 2 <==> filter_type == SvfType::LowpassX2 || filter_type
            == SvfType::HighpassX2 || filter_type == SvfType::Bandpass,
        filter_type.filters() == 1 || filter_type.filters() == 2,
        forall|num: usize| #[trigger]
            call_ensures(SvfType::num_filters, (&filter_type,), num) ==> (num == 2 <==> filter_type
                == SvfType::LowpassX2 || filter_type == SvfType::HighpassX2 || filter_type
                == SvfType::Bandpass) && 1 <= num <= 2,
{
}

/// The gain has effect on the shelves and on the bell, and on no other type.
pub proof fn law_gain_is_for_shelves_and_bell(filter_type: SvfType, uses: bool)
    requires
        call_ensures(SvfType::uses_gain, (&filter_type,), uses),
    ensures
        uses <==> filter_type == SvfType::LowShelf || filter_type == SvfType::HighShelf
            || filter_type == SvfType::Bell,
{
}

/// The exponent of the number of frames between two updates of the coefficients of a
/// filter while its parameters are being smoothed.
#[derive(Debug, Clone, Copy, PartialEq, Eq, Structural)]
pub struct CoeffUpdateFactor(pub u32);

impl Default for CoeffUpdateFactor {
    fn default() -> (factor: Self)
        ensures
            factor.0 == 5,
    {
        CoeffUpdateFactor(5)
    }
}

impl CoeffUpdateFactor {
    /// Whether the coefficients are updated at frame `i` of a block: at every frame
    /// whose index is a multiple of two to the power of the factor.
    pub fn do_update(&self, i: usize) -> (update: bool)
        requires
            self.0 < 32,
        ensures
            update == (i as int % pow2(self.0 as nat) as int == 0),
    {
        proof {
            lemma_pow2_pos(self.0 as nat);
            lemma_pow2_strictly_increases(self.0 as nat, 32);
            lemma2_to64();
            lemma_u64_shl_is_mul(1, self.0 as u64);
        }
        let interval: u64 = 1u64 << (self.0 as u64);
        (i as u64) % interval == 0
    }
}

/// What a filter does in a block.
#[derive(Debug, Clone, Copy, PartialEq, Eq, Structural)]
pub enum FilterStep {
    /// It is disabled: the inputs are handed on.
    Bypass,
    /// Its outputs are silent: it is reset, and the outputs are cleared.
    Reset,
    /// It filters, and updates its coefficients as its parameters are smoothed.
    Smooth,
    /// It filters, once its coefficients were updated.
    Update,
    /// It filters.
    Filter,
}

/// What a filter does in a block: nothing if it is disabled (and was faded out), or if
/// its inputs are silent and it neither fades in nor out; or else it filters, where its
/// coefficients follow its parameters.
pub fn filter_step(
    disabled: bool,
    inputs_silent: bool,
    fade_settled: bool,
    smoothing: bool,
    params_changed: bool,
) -> (step: FilterStep)
    ensures
        step is Bypass <==> disabled,
        step is Reset <==> !disabled && inputs_silent && fade_settled,
        step is Smooth <==> !disabled && !(inputs_silent && fade_settled) && smoothing,
        step is Update <==> !disabled && !(inputs_silent && fade_settled) && !smoothing
            && params_changed,
        step is Filter <==> !disabled && !(inputs_silent && fade_settled) && !smoothing
            && !params_changed,
{
    if disabled {
        FilterStep::Bypass
    } else if inputs_silent && fade_settled {
        FilterStep::Reset
    } else if smoothing {
        FilterStep::Smooth
    } else if params_changed {
        FilterStep::Update
    } else {
        FilterStep::Filter
    }
}

/// What a filter finds in a block.
#[derive(Debug, Clone, Copy, PartialEq, Eq, Structural)]
pub struct FilterBlock {
    /// Whether the filter is disabled, and was faded out.
    pub disabled: bool,
    /// Whether all inputs are silent.
    pub inputs_silent: bool,
    /// Whether the filter neither fades in nor out.
    pub fade_settled: bool,
    /// Whether parameters are being smoothed.
    pub smoothing: bool,
    /// Whether parameters have changed since the last block.
    pub params_changed: bool,
}

impl FilterBlock {
    /// What a filter does in this block, where an update of its coefficients may be
    /// pending.
    pub open spec fn step(self, pending: bool) -> FilterStep {
        if self.disabled {
            FilterStep::Bypass
        } else if self.inputs_silent && self.fade_settled {
            FilterStep::Reset
        } else if self.smoothing {
            FilterStep::Smooth
        } else if self.params_changed || pending {
            FilterStep::Update
        } else {
            FilterStep::Filter
        }
    }

    /// Whether an update of the coefficients is pending after this block: if there was
    /// none since the parameters have changed or were smoothed.
    pub open spec fn pending_after(self, pending: bool) -> bool {
        self.step(pending) !is Update && (pending || self.params_changed || self.smoothing)
    }
}

/// What a filter remembers from one block to the next. `C` are its coefficients.
#[derive(Debug, Clone, Copy, PartialEq, Eq)]
pub struct FilterState<C> {
    update_pending: bool,
    coeffs: C,
}

impl<C> FilterState<C> {
    /// Whether an update of the coefficients is pending.
    pub closed spec fn pending(&self) -> bool {
        self.update_pending
    }

    /// The coefficients.
    pub closed spec fn spec_coeffs(&self) -> C {
        self.coeffs
    }

    /// Whether the coefficients are those of some parameters, or an update is pending.
    pub open spec fn follows<P, F: Fn(&P) -> C>(&self, compute: F, params: P) -> bool {
        self.pending() || call_ensures(compute, (&params,), self.spec_coeffs())
    }

    /// A filter whose coefficients are those of its parameters.
    pub fn new(coeffs: C) -> (state: Self)
        ensures
            !state.pending(),
            state.spec_coeffs() == coeffs,
    {
        FilterState { update_pending: false, coeffs }
    }

    /// The coefficients.
    pub fn coeffs(&self) -> (coeffs: &C)
        ensures
            *coeffs == self.spec_coeffs(),
    {
        &self.coeffs
    }

    /// Other coefficients are used while parameters are being smoothed.
    pub fn set_coeffs(&mut self, coeffs: C)
        ensures
            final(self).spec_coeffs() == coeffs,
            final(self).pending() == old(self).pending(),
    {
        self.coeffs = coeffs;
    }

    /// What a filter does in a block. A change of its parameters that does not take effect
    /// at once does so in the next block that is filtered. `compute` gives the coefficients
    /// of some parameters. A block whose parameters are not being smoothed is filtered with
    /// the coefficients of its parameters.
    pub fn step<P, F: Fn(&P) -> C>(
        &mut self,
        block: FilterBlock,
        params: &P,
        compute: &F,
    ) -> (step: FilterStep)
        requires
            call_requires(*compute, (params,)),
        ensures
            step == block.step(old(self).pending()),
            final(self).pending() == block.pending_after(old(self).pending()),
            if step is Update {
                call_ensures(*compute, (params,), final(self).spec_coeffs())
            } else {
                final(self).spec_coeffs() == old(self).spec_coeffs()
            },
            forall|before: P| #[trigger]
                old(self).follows(*compute, before) && (block.params_changed || before == *params)
                    ==> {
                    &&& final(self).follows(*compute, *params)
                    &&& step is Filter || step is Update ==> call_ensures(
                        *compute,
                        (params,),
                        final(self).spec_coeffs(),
                    )
                },
    {
        let step = filter_step(
            block.disabled,
            block.inputs_silent,
            block.fade_settled,
            block.smoothing,
            block.params_changed || self.update_pending,
        );
        self.update_pending = match step {
            FilterStep::Update => false,
            _ => self.update_pending || block.params_changed || block.smoothing,
        };
        if let FilterStep::Update = step {
            self.coeffs = compute(params);
        }
        step
    }
}

/// A disabled filter is bypassed. One that is not is reset where its inputs are silent and it
/// neither fades in nor out, and it filters in any other block: with coefficients that follow
/// its parameters while these are smoothed, and with new coefficients where its parameters
/// have changed since the last ones.
pub proof fn law_what_a_filter_does(block: FilterBlock, pending: bool)
    ensures
        block.step(pending) is Bypass <==> block.disabled,
        !block.disabled ==> (block.step(pending) is Reset <==> block.inputs_silent
            && block.fade_settled),
        !block.disabled && !block.inputs_silent ==> (block.step(pending) is Smooth
            <==> block.smoothing),
        !block.disabled && !block.fade_settled ==> (block.step(pending) is Smooth
            <==> block.smoothing),
        !block.disabled && !block.inputs_silent && !block.smoothing ==> (block.step(
            pending,
        ) is Update <==> block.params_changed || pending),
        !block.disabled && !block.fade_settled && !block.smoothing ==> (block.step(
            pending,
        ) is Update <==> block.params_changed || pending),
        // An update is pending until the coefficients were computed anew.
        block.step(pending) is Update ==> !block.pending_after(pending),
        block.step(pending) is Filter ==> !block.pending_after(pending),
        block.step(pending) is Smooth ==> block.pending_after(pending),
        pending && !(block.step(pending) is Update) ==> block.pending_after(pending),
        !pending && !block.params_changed && !block.smoothing ==> !block.pending_after(pending),
{
}

/// Whether an update is pending after some blocks.
pub open spec fn pending_after(pending: bool, blocks: Seq<FilterBlock>) -> bool
    decreases blocks.len(),
{
    if blocks.len() == 0 {
        pending
    } else {
        blocks.last().pending_after(pending_after(pending, blocks.drop_last()))
    }
}

/// What a filter does in block `i` of some blocks.
pub open spec fn step_at(pending: bool, blocks: Seq<FilterBlock>, i: int) -> FilterStep {
    blocks[i].step(pending_after(pending, blocks.take(i)))
}

/// A filter never filters with the coefficients of old parameters: after a block in which
/// parameters have changed or were smoothed, the coefficients are updated before the next
/// block that is only filtered, whatever blocks are in between.
pub proof fn law_parameters_take_effect(
    pending: bool,
    blocks: Seq<FilterBlock>,
    i: int,
    j: int,
)
    requires
        0 <= i <= j < blocks.len(),
        blocks[i].params_changed || blocks[i].smoothing,
        forall|k: int| i <= k < j ==> #[trigger] step_at(pending, blocks, k) !is Update,
    ensures
        step_at(pending, blocks, j) !is Filter,
{
    if i < j {
        lemma_stays_pending(pending, blocks, i, j);
    }
}

/// A change of the parameters in a block that is not filtered takes effect in the next one
/// that is: its coefficients are updated, as if the change had come in it.
pub proof fn law_change_waits_for_a_filtered_block(
    pending: bool,
    blocks: Seq<FilterBlock>,
    i: int,
    j: int,
)
    requires
        0 <= i < j < blocks.len(),
        blocks[i].params_changed,
        forall|k: int|
            i <= k < j ==> (#[trigger] step_at(pending, blocks, k) is Bypass || step_at(
                pending,
                blocks,
                k,
            ) is Reset),
        !blocks[j].disabled,
        !(blocks[j].inputs_silent && blocks[j].fade_settled),
        !blocks[j].smoothing,
    ensures
        step_at(pending, blocks, j) is Update,
        step_at(pending, blocks, j) == (FilterBlock { params_changed: true, ..blocks[j] }).step(
            false,
        ),
{
    lemma_stays_pending(pending, blocks, i, j);
}

proof fn lemma_stays_pending(pending: bool, blocks: Seq<FilterBlock>, i: int, j: int)
    requires
        0 <= i < j <= blocks.len(),
        blocks[i].params_changed || blocks[i].smoothing,
        forall|k: int| i <= k < j ==> #[trigger] step_at(pending, blocks, k) !is Update,
    ensures
        pending_after(pending, blocks.take(j)),
    decreases j,
{
    assert(blocks.take(j).drop_last() =~= blocks.take(j - 1));
    assert(step_at(pending, blocks, j - 1) !is Update);
    if i < j - 1 {
        lemma_stays_pending(pending, blocks, i, j - 1);
    }
}

/// What a filter does in a block is what it does where no update is pending, or as if its
/// parameters had changed where one is.
pub proof fn law_pending_update_counts_as_a_change(block: FilterBlock, pending: bool, step: FilterStep)
    requires
        call_ensures(
            filter_step,
            (
                block.disabled,
                block.inputs_silent,
                block.fade_settled,
                block.smoothing,
                block.params_changed || pending,
            ),
            step,
        ),
    ensures
        step == block.step(pending),
        step == (FilterBlock { params_changed: block.params_changed || pending, ..block }).step(
            false,
        ),
{
}

} // verus!
