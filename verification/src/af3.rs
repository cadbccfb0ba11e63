//! The reliability monitor of speculative decoding.
//!
//! The monitor bets against the drafter. Its stake, the e-value, starts at one and is multiplied
//! by `1 + lambda * (y - p0)` at every step, `y` being one for an anomaly and zero otherwise. While
//! anomalies come no more often than `p0`, the stake is not expected to grow; once it reaches
//! `1 / alpha`, the monitor raises an alarm and speculation falls back to sequential decoding for
//! good.
use vstd::prelude::*;
use crate::arith::{self, binary, constant, relation, Arithmetic, Binary, Constant, Relation};

verus! {

/// A switch that overrules every monitor.
pub struct MonitorSwitch {
    /// `Some(true)` keeps speculation on, `Some(false)` keeps it off, and `None` leaves the monitor
    /// to decide.
    pub forced: Option<bool>,
}

impl Default for MonitorSwitch {
    /// The monitor decides.
    fn default() -> (switch: Self)
        ensures
            switch.forced is None,
    {
        MonitorSwitch { forced: None }
    }
}

/// Sets the switch.
pub fn set_af3_monitor_override(switch: &mut MonitorSwitch, override_value: Option<bool>)
    ensures
        final(switch).forced == override_value,
{
    switch.forced = override_value;
}

/// The monitor's parameters.
pub struct FrankenMtpEProcessConfig<W: Arithmetic> {
    /// The anomaly rate a sound drafter stays at or below.
    pub p0: W::Scalar,
    /// The betting parameter.
    pub lambda: W::Scalar,
    /// The risk level; where it is not positive, speculation is off.
    pub alpha: W::Scalar,
}

/// That `p0` is a rate strictly between zero and one.
pub open spec fn is_rate<W: Arithmetic>(p0: W::Scalar) -> bool {
    &&& arith::rel::<W>(Relation::Less, arith::cst::<W>(Constant::Zero), p0)
    &&& arith::rel::<W>(Relation::Less, p0, arith::cst::<W>(Constant::One))
}

/// That `lambda` is a bet strictly between zero and `1 / p0`.
pub open spec fn is_bet<W: Arithmetic>(p0: W::Scalar, lambda: W::Scalar) -> bool {
    &&& arith::rel::<W>(Relation::Less, arith::cst::<W>(Constant::Zero), lambda)
    &&& arith::rel::<W>(
        Relation::Less,
        lambda,
        arith::bin::<W>(Binary::Div, arith::cst::<W>(Constant::One), p0),
    )
}

/// A setting where there is one that passes, and otherwise its default.
pub open spec fn setting_or<S>(setting: Option<S>, passes: bool, default: S) -> S {
    if setting is Some && passes {
        setting->0
    } else {
        default
    }
}

/// The rate that is set, where it is one, and otherwise the default rate.
pub open spec fn rate_or_default<W: Arithmetic>(p0: Option<W::Scalar>) -> W::Scalar {
    setting_or(p0, is_rate::<W>(p0->0), arith::cst::<W>(Constant::Tenth))
}

/// A rate and the bet it runs with: the bet that is set where the rate admits it, and otherwise
/// two, one, or the default pair, whichever is admitted first.
pub open spec fn admitted<W: Arithmetic>(p0: W::Scalar, lambda: Option<W::Scalar>) -> (
    W::Scalar,
    W::Scalar,
) {
    let one = arith::cst::<W>(Constant::One);
    let two = arith::cst::<W>(Constant::Two);
    if lambda is Some && is_bet::<W>(p0, lambda->0) {
        (p0, lambda->0)
    } else if is_bet::<W>(p0, two) {
        (p0, two)
    } else if is_bet::<W>(p0, one) {
        (p0, one)
    } else {
        (arith::cst::<W>(Constant::Tenth), two)
    }
}

/// Whether `value` lies strictly between zero and `bound`.
fn strictly_below<W: Arithmetic>(value: W::Scalar, bound: W::Scalar) -> (inside: bool)
    ensures
        arith::pure::<W>() ==> inside == (arith::rel::<W>(
            Relation::Less,
            arith::cst::<W>(Constant::Zero),
            value,
        ) && arith::rel::<W>(Relation::Less, value, bound)),
{
    relation::<W>(Relation::Less, constant::<W>(Constant::Zero), value) && relation::<W>(
        Relation::Less,
        value,
        bound,
    )
}

impl<W: Arithmetic> Default for FrankenMtpEProcessConfig<W> {
    /// A tenth of anomalies at most, bets of two, and a risk of a hundredth.
    fn default() -> (config: Self)
        ensures
            arith::pure::<W>() ==> config == Self::standard(),
    {
        FrankenMtpEProcessConfig {
            p0: constant::<W>(Constant::Tenth),
            lambda: constant::<W>(Constant::Two),
            alpha: constant::<W>(Constant::DefaultAlpha),
        }
    }
}

impl<W: Arithmetic> FrankenMtpEProcessConfig<W> {
    /// The default parameters.
    pub open spec fn standard() -> Self {
        FrankenMtpEProcessConfig {
            p0: arith::cst::<W>(Constant::Tenth),
            lambda: arith::cst::<W>(Constant::Two),
            alpha: arith::cst::<W>(Constant::DefaultAlpha),
        }
    }

    /// That the rate is one and admits the bet.
    pub open spec fn sound(&self) -> bool {
        is_rate::<W>(self.p0) && is_bet::<W>(self.p0, self.lambda)
    }

    /// Whether speculation is off for good: the risk level is not positive.
    pub open spec fn disabled(&self) -> bool {
        arith::rel::<W>(Relation::AtMost, self.alpha, arith::cst::<W>(Constant::Zero))
    }

    /// The e-value at which the alarm is raised.
    pub open spec fn limit(&self) -> W::Scalar {
        if self.disabled() {
            arith::cst::<W>(Constant::Infinity)
        } else {
            arith::bin::<W>(Binary::Div, arith::cst::<W>(Constant::One), self.alpha)
        }
    }

    /// The factor of one step.
    pub open spec fn factor(&self, is_anomaly: bool) -> W::Scalar {
        let y = arith::cst::<W>(
            if is_anomaly {
                Constant::One
            } else {
                Constant::Zero
            },
        );
        arith::bin::<W>(
            Binary::Add,
            arith::cst::<W>(Constant::One),
            arith::bin::<W>(
                Binary::Mul,
                self.lambda,
                arith::bin::<W>(Binary::Sub, y, self.p0),
            ),
        )
    }

    /// Parameters that fit together.
    pub fn new(p0: W::Scalar, lambda: W::Scalar, alpha: W::Scalar) -> (config: Self)
        requires
            arith::pure::<W>() ==> is_rate::<W>(p0) && is_bet::<W>(p0, lambda),
        ensures
            config.p0 == p0,
            config.lambda == lambda,
            config.alpha == alpha,
    {
        FrankenMtpEProcessConfig { p0, lambda, alpha }
    }

    /// Parameters from settings: a rate that is missing or out of bounds gives way to its default,
    /// a bet to one that the rate admits, a risk level only where it is missing.
    ///
    /// The default bet is two where the rate admits it, and else one. Where the rate admits
    /// neither, rate and bet are both the default ones.
    pub fn from_settings(
        p0: Option<W::Scalar>,
        lambda: Option<W::Scalar>,
        alpha: Option<W::Scalar>,
    ) -> (config: Self)
        ensures
            alpha is Some ==> config.alpha == alpha->0,
            arith::pure::<W>() ==> {
                &&& (config.p0, config.lambda) == admitted::<W>(rate_or_default::<W>(p0), lambda)
                &&& config.alpha == setting_or(
                    alpha,
                    true,
                    arith::cst::<W>(Constant::DefaultAlpha),
                )
                &&& Self::standard().sound() ==> config.sound()
            },
    {
        let one = constant::<W>(Constant::One);
        let two = constant::<W>(Constant::Two);
        let tenth = constant::<W>(Constant::Tenth);
        let rate = match p0 {
            Some(value) => if strictly_below::<W>(value, one) {
                value
            } else {
                tenth
            },
            None => tenth,
        };
        let bound = binary::<W>(Binary::Div, one, rate);
        let given = match lambda {
            Some(value) => if strictly_below::<W>(value, bound) {
                Some(value)
            } else {
                None
            },
            None => None,
        };
        let (rate, bet) = match given {
            Some(value) => (rate, value),
            None => if strictly_below::<W>(two, bound) {
                (rate, two)
            } else if strictly_below::<W>(one, bound) {
                (rate, one)
            } else {
                (tenth, two)
            },
        };
        let risk = match alpha {
            Some(value) => value,
            None => constant::<W>(Constant::DefaultAlpha),
        };
        FrankenMtpEProcessConfig { p0: rate, lambda: bet, alpha: risk }
    }

    /// The e-value at which the alarm is raised: infinity where the risk level is not positive.
    pub fn threshold(&self) -> (threshold: W::Scalar)
        ensures
            arith::pure::<W>() ==> threshold == self.limit(),
    {
        if relation::<W>(Relation::AtMost, self.alpha, constant::<W>(Constant::Zero)) {
            constant::<W>(Constant::Infinity)
        } else {
            binary::<W>(Binary::Div, constant::<W>(Constant::One), self.alpha)
        }
    }
}

/// What the monitor decides after a step.
#[derive(Clone, Copy, Debug, PartialEq)]
pub enum MonitorDecision<S> {
    /// The e-value is below the threshold.
    Healthy { e_value: S },
    /// This step raised the alarm.
    Alarm { e_value: S, steps: u64 },
    /// The alarm was raised before.
    Demoted,
    /// Speculation is off by configuration.
    Disabled,
}

/// The monitor's state.
pub struct MonitorState<S> {
    /// The stake.
    pub e_value: S,
    /// Steps observed.
    pub steps: int,
    /// Anomalies among them.
    pub anomalies: int,
    /// Whether the alarm was raised.
    pub alarmed: bool,
}

/// The state before any step.
pub open spec fn fresh<W: Arithmetic>() -> MonitorState<W::Scalar> {
    MonitorState {
        e_value: arith::cst::<W>(Constant::One),
        steps: 0,
        anomalies: 0,
        alarmed: false,
    }
}

/// Whether a step leaves the state as it is: speculation is off, the switch overrules, or the alarm
/// was raised before.
pub open spec fn settled<W: Arithmetic>(
    config: FrankenMtpEProcessConfig<W>,
    state: MonitorState<W::Scalar>,
    forced: Option<bool>,
) -> bool {
    config.disabled() || forced is Some || state.alarmed
}

/// The state after one step.
pub open spec fn stepped<W: Arithmetic>(
    config: FrankenMtpEProcessConfig<W>,
    state: MonitorState<W::Scalar>,
    forced: Option<bool>,
    is_anomaly: bool,
) -> MonitorState<W::Scalar> {
    if settled::<W>(config, state, forced) {
        state
    } else {
        let e_value = arith::bin::<W>(
            Binary::Max,
            arith::bin::<W>(Binary::Mul, state.e_value, config.factor(is_anomaly)),
            arith::cst::<W>(Constant::Zero),
        );
        MonitorState {
            e_value,
            steps: state.steps + 1,
            anomalies: state.anomalies + (if is_anomaly {
                1int
            } else {
                0
            }),
            alarmed: arith::rel::<W>(Relation::AtMost, config.limit(), e_value),
        }
    }
}

/// What one step decides.
pub open spec fn decided<W: Arithmetic>(
    config: FrankenMtpEProcessConfig<W>,
    state: MonitorState<W::Scalar>,
    forced: Option<bool>,
    is_anomaly: bool,
) -> MonitorDecision<W::Scalar> {
    let next = stepped::<W>(config, state, forced, is_anomaly);
    if config.disabled() {
        MonitorDecision::Disabled
    } else if forced == Some(true) {
        MonitorDecision::Healthy { e_value: state.e_value }
    } else if forced == Some(false) || state.alarmed {
        MonitorDecision::Demoted
    } else if next.alarmed {
        MonitorDecision::Alarm { e_value: next.e_value, steps: next.steps as u64 }
    } else {
        MonitorDecision::Healthy { e_value: next.e_value }
    }
}

/// Whether speculation is demoted: the switch says so, and where it says nothing, the alarm was
/// raised or speculation is off.
pub open spec fn demoted<W: Arithmetic>(
    config: FrankenMtpEProcessConfig<W>,
    state: MonitorState<W::Scalar>,
    forced: Option<bool>,
) -> bool {
    match forced {
        Some(healthy) => !healthy,
        None => state.alarmed || config.disabled(),
    }
}

/// The state after a run of steps without a switch.
pub open spec fn ran<W: Arithmetic>(
    config: FrankenMtpEProcessConfig<W>,
    state: MonitorState<W::Scalar>,
    anomalies: Seq<bool>,
) -> MonitorState<W::Scalar>
    decreases anomalies.len(),
{
    if anomalies.len() == 0 {
        state
    } else {
        stepped::<W>(config, ran::<W>(config, state, anomalies.drop_last()), None, anomalies.last())
    }
}

/// The monitor of one drafter.
pub struct FrankenMtpEProcessMonitor<W: Arithmetic> {
    config: FrankenMtpEProcessConfig<W>,
    e_value: W::Scalar,
    steps: u64,
    anomalies: u64,
    alarmed: bool,
}

impl<W: Arithmetic> Default for FrankenMtpEProcessMonitor<W> {
    /// A fresh monitor with the default parameters.
    fn default() -> (monitor: Self)
        ensures
            monitor.wf(),
            !monitor.state().alarmed,
            monitor.state().steps == 0,
            monitor.state().anomalies == 0,
            arith::pure::<W>() ==> {
                &&& monitor.parameters() == FrankenMtpEProcessConfig::<W>::standard()
                &&& monitor.state() == fresh::<W>()
            },
    {
        FrankenMtpEProcessMonitor::new(FrankenMtpEProcessConfig::<W>::default())
    }
}

impl<W: Arithmetic> FrankenMtpEProcessMonitor<W> {
    /// The monitor's parameters.
    pub closed spec fn parameters(&self) -> FrankenMtpEProcessConfig<W> {
        self.config
    }

    /// The monitor's state.
    pub closed spec fn state(&self) -> MonitorState<W::Scalar> {
        MonitorState {
            e_value: self.e_value,
            steps: self.steps as int,
            anomalies: self.anomalies as int,
            alarmed: self.alarmed,
        }
    }

    /// No more anomalies than steps.
    pub open spec fn wf(&self) -> bool {
        0 <= self.state().anomalies <= self.state().steps
    }

    /// A fresh monitor.
    pub fn new(config: FrankenMtpEProcessConfig<W>) -> (monitor: Self)
        ensures
            monitor.wf(),
            monitor.parameters() == config,
            !monitor.state().alarmed,
            monitor.state().steps == 0,
            monitor.state().anomalies == 0,
            arith::pure::<W>() ==> monitor.state() == fresh::<W>(),
    {
        FrankenMtpEProcessMonitor {
            config,
            e_value: constant::<W>(Constant::One),
            steps: 0,
            anomalies: 0,
            alarmed: false,
        }
    }

    /// Returns the monitor to its state before any step.
    pub fn reset(&mut self)
        ensures
            final(self).wf(),
            final(self).parameters() == old(self).parameters(),
            !final(self).state().alarmed,
            final(self).state().steps == 0,
            final(self).state().anomalies == 0,
            arith::pure::<W>() ==> final(self).state() == fresh::<W>(),
    {
        self.e_value = constant::<W>(Constant::One);
        self.steps = 0;
        self.anomalies = 0;
        self.alarmed = false;
    }

    /// Whether speculation is demoted.
    pub fn is_demoted(&self, switch: &MonitorSwitch) -> (demoted: bool)
        ensures
            switch.forced is Some ==> demoted == !switch.forced->0,
            switch.forced is None && self.state().alarmed ==> demoted,
            arith::pure::<W>() ==> demoted == self::demoted::<W>(
                self.parameters(),
                self.state(),
                switch.forced,
            ),
    {
        match switch.forced {
            Some(healthy) => !healthy,
            None => self.alarmed || relation::<W>(
                Relation::AtMost,
                self.config.alpha,
                constant::<W>(Constant::Zero),
            ),
        }
    }

    /// The current e-value.
    pub fn e_value(&self) -> (e_value: W::Scalar)
        ensures
            e_value == self.state().e_value,
    {
        self.e_value
    }

    /// Steps observed.
    pub fn steps(&self) -> (steps: u64)
        ensures
            steps == self.state().steps,
    {
        self.steps
    }

    /// Anomalies observed.
    pub fn anomalies(&self) -> (anomalies: u64)
        ensures
            anomalies == self.state().anomalies,
    {
        self.anomalies
    }

    /// The parameters.
    pub fn config(&self) -> (config: &FrankenMtpEProcessConfig<W>)
        ensures
            *config == self.parameters(),
    {
        &self.config
    }

    /// Observes one speculative outcome.
    ///
    /// Where speculation is off, the switch overrules, or the alarm was raised before, nothing
    /// changes. Otherwise the step is counted, the stake is multiplied, and the alarm is raised
    /// once the stake reaches the threshold.
    pub fn observe(&mut self, switch: &MonitorSwitch, is_anomaly: bool) -> (decision:
        MonitorDecision<W::Scalar>)
        requires
            old(self).wf(),
            switch.forced is None && !old(self).state().alarmed && !(arith::pure::<W>() && old(
                self,
            ).parameters().disabled()) ==> old(self).state().steps < u64::MAX,
        ensures
            final(self).wf(),
            final(self).parameters() == old(self).parameters(),
            old(self).state().alarmed ==> final(self).state() == old(self).state(),
            switch.forced is Some ==> final(self).state() == old(self).state(),
            final(self).state().steps <= old(self).state().steps + 1,
            decision is Alarm <==> !old(self).state().alarmed && final(self).state().alarmed,
            arith::pure::<W>() ==> {
                &&& final(self).state() == stepped::<W>(
                    old(self).parameters(),
                    old(self).state(),
                    switch.forced,
                    is_anomaly,
                )
                &&& decision == decided::<W>(
                    old(self).parameters(),
                    old(self).state(),
                    switch.forced,
                    is_anomaly,
                )
            },
    {
        if relation::<W>(Relation::AtMost, self.config.alpha, constant::<W>(Constant::Zero)) {
            return MonitorDecision::Disabled;
        }
        match switch.forced {
            Some(true) => {
                return MonitorDecision::Healthy { e_value: self.e_value };
            },
            Some(false) => {
                return MonitorDecision::Demoted;
            },
            None => {},
        }
        if self.alarmed {
            return MonitorDecision::Demoted;
        }
        self.steps = self.steps + 1;
        let y = if is_anomaly {
            self.anomalies = self.anomalies + 1;
            constant::<W>(Constant::One)
        } else {
            constant::<W>(Constant::Zero)
        };
        let factor = binary::<W>(
            Binary::Add,
            constant::<W>(Constant::One),
            binary::<W>(
                Binary::Mul,
                self.config.lambda,
                binary::<W>(Binary::Sub, y, self.config.p0),
            ),
        );
        self.e_value = binary::<W>(
            Binary::Max,
            binary::<W>(Binary::Mul, self.e_value, factor),
            constant::<W>(Constant::Zero),
        );
        let threshold = self.config.threshold();
        if relation::<W>(Relation::AtMost, threshold, self.e_value) {
            self.alarmed = true;
            MonitorDecision::Alarm { e_value: self.e_value, steps: self.steps }
        } else {
            MonitorDecision::Healthy { e_value: self.e_value }
        }
    }
}

/// The alarm is irrevocable: whatever is observed after it, the state stays as it was and
/// speculation stays demoted.
pub proof fn law_alarm_is_irrevocable<W: Arithmetic>(
    config: FrankenMtpEProcessConfig<W>,
    state: MonitorState<W::Scalar>,
    anomalies: Seq<bool>,
)
    requires
        state.alarmed,
    ensures
        ran::<W>(config, state, anomalies) == state,
        demoted::<W>(config, ran::<W>(config, state, anomalies), None),
    decreases anomalies.len(),
{
    if anomalies.len() > 0 {
        law_alarm_is_irrevocable::<W>(config, state, anomalies.drop_last());
    }
}

/// A risk level that is not positive demotes speculation before the first step, and no step changes
/// anything.
pub proof fn law_no_risk_disables_speculation<W: Arithmetic>(
    config: FrankenMtpEProcessConfig<W>,
    state: MonitorState<W::Scalar>,
    anomalies: Seq<bool>,
    is_anomaly: bool,
)
    requires
        config.disabled(),
    ensures
        ran::<W>(config, state, anomalies) == state,
        demoted::<W>(config, state, None),
        decided::<W>(config, state, None, is_anomaly) == MonitorDecision::<W::Scalar>::Disabled,
    decreases anomalies.len(),
{
    if anomalies.len() > 0 {
        law_no_risk_disables_speculation::<W>(config, state, anomalies.drop_last(), is_anomaly);
    }
}

/// Speculation runs exactly as long as no step has raised the alarm: until then every decision is
/// healthy, and the first one that is not is the alarm.
pub proof fn law_only_the_alarm_demotes<W: Arithmetic>(
    config: FrankenMtpEProcessConfig<W>,
    state: MonitorState<W::Scalar>,
    is_anomaly: bool,
)
    requires
        !demoted::<W>(config, state, None),
    ensures
        decided::<W>(config, state, None, is_anomaly) is Alarm <==> demoted::<W>(
            config,
            stepped::<W>(config, state, None, is_anomaly),
            None,
        ),
        decided::<W>(config, state, None, is_anomaly) is Alarm || decided::<W>(
            config,
            state,
            None,
            is_anomaly,
        ) is Healthy,
{
}

/// Every run counts its anomalies among its steps, and never counts more steps than it took.
pub proof fn law_runs_count_their_steps<W: Arithmetic>(
    config: FrankenMtpEProcessConfig<W>,
    anomalies: Seq<bool>,
)
    ensures
        0 <= ran::<W>(config, fresh::<W>(), anomalies).anomalies <= ran::<W>(
            config,
            fresh::<W>(),
            anomalies,
        ).steps <= anomalies.len(),
        !demoted::<W>(config, ran::<W>(config, fresh::<W>(), anomalies), None) ==> ran::<W>(
            config,
            fresh::<W>(),
            anomalies,
        ).steps == anomalies.len(),
    decreases anomalies.len(),
{
    if anomalies.len() > 0 {
        law_runs_count_their_steps::<W>(config, anomalies.drop_last());
    }
}

/// The switch overrules without leaving a trace: while it is set, no step changes the state.
pub proof fn law_switch_leaves_no_trace<W: Arithmetic>(
    config: FrankenMtpEProcessConfig<W>,
    state: MonitorState<W::Scalar>,
    healthy: bool,
    is_anomaly: bool,
)
    ensures
        stepped::<W>(config, state, Some(healthy), is_anomaly) == state,
        demoted::<W>(config, state, Some(healthy)) == !healthy,
{
}

} // verus!
