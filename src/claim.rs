use vstd::prelude::*;

verus! {

/// One USB request of an open-and-claim, in the order in which they run.
#[derive(Clone, Copy, Debug, PartialEq, Eq, Structural)]
pub enum ClaimStep {
    /// Make the given configuration value the active one.
    SetConfiguration(u8),
    /// Detach a kernel driver from the interface if one is bound, then claim it.
    DetachAndClaim(u8),
    /// Select a non-default alternate setting (interface, setting).
    SetAlternateSetting(u8, u8),
}

/// The requests that claim `interface` in configuration `config_value` on a
/// device whose active configuration is `active`: the configuration is set
/// only when it is not already the active one, and the alternate setting
/// only when it is not the default.
pub open spec fn plan_of(active: Option<u8>, config_value: u8, interface: u8, alt_setting: u8) -> Seq<
    ClaimStep,
> {
    (if active == Some(config_value) {
        Seq::empty()
    } else {
        seq![ClaimStep::SetConfiguration(config_value)]
    }) + seq![ClaimStep::DetachAndClaim(interface)] + (if alt_setting == 0 {
        Seq::empty()
    } else {
        seq![ClaimStep::SetAlternateSetting(interface, alt_setting)]
    })
}

/// The active configuration once `steps` have all succeeded, starting from
/// `active`.
pub open spec fn active_after(active: Option<u8>, steps: Seq<ClaimStep>) -> Option<u8>
    decreases steps.len(),
{
    if steps.len() == 0 {
        active
    } else {
        let next = match steps[0] {
            ClaimStep::SetConfiguration(v) => Some(v),
            _ => active,
        };
        active_after(next, steps.drop_first())
    }
}

pub open spec fn sets_configuration(steps: Seq<ClaimStep>) -> bool {
    exists|i: int| 0 <= i < steps.len() && steps[i] is SetConfiguration
}

/// Plans the requests of an open-and-claim from the device's active
/// configuration value, as read after opening it.
pub fn claim_plan(active: Option<u8>, config_value: u8, interface: u8, alt_setting: u8) -> (r: Vec<
    ClaimStep,
>)
    ensures
        r@ == plan_of(active, config_value, interface, alt_setting),
{
    let mut steps: Vec<ClaimStep> = Vec::new();
    let already = match active {
        Some(v) => v == config_value,
        None => false,
    };
    if !already {
        steps.push(ClaimStep::SetConfiguration(config_value));
    }
    steps.push(ClaimStep::DetachAndClaim(interface));
    if alt_setting != 0 {
        steps.push(ClaimStep::SetAlternateSetting(interface, alt_setting));
    }
    assert(steps@ =~= plan_of(active, config_value, interface, alt_setting));
    steps
}

/// Selecting a configuration is idempotent: after one successful claim the
/// requested configuration is active, and a second claim with the same value
/// plans no configuration change; nor does a first one when the value is
/// already active.
pub proof fn lemma_claim_twice_sets_configuration_once(
    active: Option<u8>,
    config_value: u8,
    interface: u8,
    alt_setting: u8,
)
    ensures
        active == Some(config_value) ==> !sets_configuration(
            plan_of(active, config_value, interface, alt_setting),
        ),
        active_after(active, plan_of(active, config_value, interface, alt_setting)) == Some(
            config_value,
        ),
        !sets_configuration(
            plan_of(
                active_after(active, plan_of(active, config_value, interface, alt_setting)),
                config_value,
                interface,
                alt_setting,
            ),
        ),
{
    let p = plan_of(active, config_value, interface, alt_setting);
    let q = plan_of(Some(config_value), config_value, interface, alt_setting);
    assert(!sets_configuration(q)) by {
        assert forall|i: int| 0 <= i < q.len() implies !(q[i] is SetConfiguration) by {
            if alt_setting != 0 && i == 1 {
                assert(q[1] == ClaimStep::SetAlternateSetting(interface, alt_setting));
            } else {
                assert(q[0] == ClaimStep::DetachAndClaim(interface));
            }
        }
    }
    let rest = seq![ClaimStep::DetachAndClaim(interface)] + (if alt_setting == 0 {
        Seq::<ClaimStep>::empty()
    } else {
        seq![ClaimStep::SetAlternateSetting(interface, alt_setting)]
    });
    lemma_no_config_steps_keep_active(Some(config_value), rest, interface, alt_setting);
    if active != Some(config_value) {
        assert(p.drop_first() =~= rest);
    } else {
        assert(p =~= rest);
    }
}

proof fn lemma_no_config_steps_keep_active(
    active: Option<u8>,
    rest: Seq<ClaimStep>,
    interface: u8,
    alt_setting: u8,
)
    requires
        rest == seq![ClaimStep::DetachAndClaim(interface)] + (if alt_setting == 0 {
            Seq::<ClaimStep>::empty()
        } else {
            seq![ClaimStep::SetAlternateSetting(interface, alt_setting)]
        }),
    ensures
        active_after(active, rest) == active,
{
    let t = rest.drop_first();
    assert(rest[0] == ClaimStep::DetachAndClaim(interface));
    assert(active_after(active, rest) == active_after(active, t));
    if alt_setting == 0 {
        assert(t =~= Seq::<ClaimStep>::empty());
    } else {
        assert(t =~= seq![ClaimStep::SetAlternateSetting(interface, alt_setting)]);
        assert(t.drop_first() =~= Seq::<ClaimStep>::empty());
        assert(active_after(active, t) == active_after(active, t.drop_first()));
    }
}

} // verus!
