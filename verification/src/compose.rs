//! Root composition: the ordered mount steps that assemble the new root on
//! a private tmpfs, and a model of the resulting directory contents that
//! establishes the precedence rules — the host's `/etc` shadows the FHS
//! tree's, except for the dynamic-linker configuration written by this
//! system.

use vstd::prelude::*;

verus! {

/// Where an entry of the composed `/etc` comes from.
#[derive(Clone, Copy, PartialEq, Eq, Structural, Debug)]
pub enum EtcSource {
    WrittenLdSoConf,
    HostEtc,
    FhsEtc,
}

/// The basename of the dynamic-linker configuration file.
pub open spec fn ld_so_conf_name() -> Seq<char> {
    "ld.so.conf"@
}

/// One bind-set layer over a directory model: a source entry is added
/// exactly when its name is neither excluded nor already present; present
/// entries are never replaced.
pub open spec fn layer(
    target: Map<Seq<char>, EtcSource>,
    source_names: Set<Seq<char>>,
    source: EtcSource,
    excl: Set<Seq<char>>,
) -> Map<Seq<char>, EtcSource> {
    Map::new(
        |k: Seq<char>|
            target.dom().contains(k) || (source_names.contains(k) && !excl.contains(k)),
        |k: Seq<char>|
            if target.dom().contains(k) {
                target[k]
            } else {
                source
            },
    )
}

/// The `/etc` of the new root after composition: first the written
/// `ld.so.conf`, then the host's `/etc` (with `ld.so.conf` excluded), then
/// the FHS tree's `/etc` filling the remaining gaps.
pub open spec fn compose_etc(host_etc: Set<Seq<char>>, fhs_etc: Set<Seq<char>>) -> Map<
    Seq<char>,
    EtcSource,
> {
    let with_ld = Map::<Seq<char>, EtcSource>::empty().insert(
        ld_so_conf_name(),
        EtcSource::WrittenLdSoConf,
    );
    let with_host = layer(
        with_ld,
        host_etc,
        EtcSource::HostEtc,
        Set::<Seq<char>>::empty().insert(ld_so_conf_name()),
    );
    layer(with_host, fhs_etc, EtcSource::FhsEtc, Set::empty())
}

/// Precedence law of the composed `/etc`: every entry of the host's `/etc`
/// other than `ld.so.conf` resolves to the host's version, also (and
/// especially) where the FHS tree carries an entry of the same name;
/// `ld.so.conf` always resolves to the file written by this system; an FHS
/// entry shows through only where the host has none.
pub proof fn lemma_etc_precedence(host_etc: Set<Seq<char>>, fhs_etc: Set<Seq<char>>)
    ensures
        compose_etc(host_etc, fhs_etc).dom().contains(ld_so_conf_name()),
        compose_etc(host_etc, fhs_etc)[ld_so_conf_name()] == EtcSource::WrittenLdSoConf,
        forall|p: Seq<char>|
            host_etc.contains(p) && p != ld_so_conf_name() ==> compose_etc(
                host_etc,
                fhs_etc,
            ).dom().contains(p) && compose_etc(host_etc, fhs_etc)[p] == EtcSource::HostEtc,
        forall|p: Seq<char>|
            fhs_etc.contains(p) && !host_etc.contains(p) && p != ld_so_conf_name() ==> compose_etc(
                host_etc,
                fhs_etc,
            ).dom().contains(p) && compose_etc(host_etc, fhs_etc)[p] == EtcSource::FhsEtc,
{
}

/// Where an entry of the composed root's top level comes from.
#[derive(Clone, Copy, PartialEq, Eq, Structural, Debug)]
pub enum RootSource {
    FhsTop,
    ComposedEtc,
    HostTop,
}

/// The top level of the new root after composition: the FHS tree's entries
/// except `etc`, then the composed `etc` directory, then the host root's
/// entries except `etc` and `tmp` filling the gaps. `/tmp` is deferred to
/// the pivot stage because the new root itself lives inside the host's
/// `/tmp`.
pub open spec fn compose_root(fhs_top: Set<Seq<char>>, host_top: Set<Seq<char>>) -> Map<
    Seq<char>,
    RootSource,
> {
    let fhs_layer = Map::new(
        |k: Seq<char>| fhs_top.contains(k) && k != "etc"@,
        |k: Seq<char>| RootSource::FhsTop,
    );
    let with_etc = fhs_layer.insert("etc"@, RootSource::ComposedEtc);
    Map::new(
        |k: Seq<char>|
            with_etc.dom().contains(k) || (host_top.contains(k) && k != "etc"@ && k != "tmp"@),
        |k: Seq<char>|
            if with_etc.dom().contains(k) {
                with_etc[k]
            } else {
                RootSource::HostTop
            },
    )
}

/// The composed root's `etc` is the directory this system assembled, and
/// its `tmp` is absent unless the FHS tree itself carried one: the host's
/// `/tmp` is never bound during composition.
pub proof fn lemma_root_shape(fhs_top: Set<Seq<char>>, host_top: Set<Seq<char>>)
    ensures
        compose_root(fhs_top, host_top).dom().contains("etc"@),
        compose_root(fhs_top, host_top)["etc"@] == RootSource::ComposedEtc,
        !fhs_top.contains("tmp"@) ==> !compose_root(fhs_top, host_top).dom().contains("tmp"@),
        forall|p: Seq<char>|
            host_top.contains(p) && !fhs_top.contains(p) && p != "etc"@ && p != "tmp"@
                ==> compose_root(fhs_top, host_top).dom().contains(p) && compose_root(
                fhs_top,
                host_top,
            )[p] == RootSource::HostTop,
        forall|p: Seq<char>|
            fhs_top.contains(p) && p != "etc"@ ==> compose_root(fhs_top, host_top).dom().contains(
                p,
            ) && compose_root(fhs_top, host_top)[p] == RootSource::FhsTop,
{
    reveal_strlit("etc");
    reveal_strlit("tmp");
    assert("etc"@ != "tmp"@) by {
        assert("etc"@[0] == 'e' && "tmp"@[0] == 't');
    }
}

/// One step of the composition sequence.
#[derive(Clone, Copy, PartialEq, Eq, Structural, Debug)]
pub enum ComposeStep {
    /// Mark the caller's `/` as a recursive subordinate mount so nothing
    /// propagates outward.
    MakeRootSubordinate,
    /// Allocate the new root as a temporary directory.
    CreateNewRootDir,
    /// Mount a fresh private tmpfs over the new root.
    MountTmpfs,
    /// Mirror the FHS tree's top level into the new root, excluding `etc`.
    BindFhsTop,
    /// Create an empty `etc` directory in the new root.
    CreateEtcDir,
    /// Write the dynamic-linker configuration into the new `etc`.
    WriteLdSoConf,
    /// Mirror the host's `/etc`, excluding the just-written `ld.so.conf`.
    BindHostEtc,
    /// Mirror the FHS tree's `/etc` into the remaining gaps.
    BindFhsEtc,
    /// Mirror the host root's top level into the remaining gaps, excluding
    /// `etc` and `tmp`.
    BindHostTop,
}

/// The composition sequence, in its mandatory order.
pub open spec fn spec_compose_plan() -> Seq<ComposeStep> {
    seq![
        ComposeStep::MakeRootSubordinate,
        ComposeStep::CreateNewRootDir,
        ComposeStep::MountTmpfs,
        ComposeStep::BindFhsTop,
        ComposeStep::CreateEtcDir,
        ComposeStep::WriteLdSoConf,
        ComposeStep::BindHostEtc,
        ComposeStep::BindFhsEtc,
        ComposeStep::BindHostTop,
    ]
}

/// Emits the composition steps in their mandatory order: no step may be
/// reordered or skipped.
pub fn compose_plan() -> (steps: Vec<ComposeStep>)
    ensures
        steps@ == spec_compose_plan(),
{
    let mut steps: Vec<ComposeStep> = Vec::new();
    steps.push(ComposeStep::MakeRootSubordinate);
    steps.push(ComposeStep::CreateNewRootDir);
    steps.push(ComposeStep::MountTmpfs);
    steps.push(ComposeStep::BindFhsTop);
    steps.push(ComposeStep::CreateEtcDir);
    steps.push(ComposeStep::WriteLdSoConf);
    steps.push(ComposeStep::BindHostEtc);
    steps.push(ComposeStep::BindFhsEtc);
    steps.push(ComposeStep::BindHostTop);
    assert(steps@ =~= spec_compose_plan());
    steps
}

/// The exclusion names of a bind-set step of the composition.
pub open spec fn spec_step_exclusions(step: ComposeStep) -> Seq<Seq<char>> {
    match step {
        ComposeStep::BindFhsTop => seq!["etc"@],
        ComposeStep::BindHostEtc => seq!["ld.so.conf"@],
        ComposeStep::BindHostTop => seq!["etc"@, "tmp"@],
        _ => Seq::empty(),
    }
}

/// What one composition step does to the new root's `/etc`, over the sets
/// of names the host's and the FHS tree's `/etc` carry. Steps that do not
/// touch `etc` leave it unchanged.
pub open spec fn etc_effect(
    m: Map<Seq<char>, EtcSource>,
    step: ComposeStep,
    host_etc: Set<Seq<char>>,
    fhs_etc: Set<Seq<char>>,
) -> Map<Seq<char>, EtcSource> {
    match step {
        ComposeStep::WriteLdSoConf => m.insert(ld_so_conf_name(), EtcSource::WrittenLdSoConf),
        ComposeStep::BindHostEtc => layer(
            m,
            host_etc,
            EtcSource::HostEtc,
            spec_step_exclusions(step).to_set(),
        ),
        ComposeStep::BindFhsEtc => layer(
            m,
            fhs_etc,
            EtcSource::FhsEtc,
            spec_step_exclusions(step).to_set(),
        ),
        _ => m,
    }
}

/// The new root's `/etc` after a sequence of composition steps.
pub open spec fn apply_etc_steps(
    m: Map<Seq<char>, EtcSource>,
    steps: Seq<ComposeStep>,
    host_etc: Set<Seq<char>>,
    fhs_etc: Set<Seq<char>>,
) -> Map<Seq<char>, EtcSource>
    decreases steps.len(),
{
    if steps.len() == 0 {
        m
    } else {
        apply_etc_steps(etc_effect(m, steps[0], host_etc, fhs_etc), steps.drop_first(),
            host_etc, fhs_etc)
    }
}

/// Running the composition sequence produces exactly the modelled `/etc`:
/// the plan's steps, in their order and with their exclusion sets, yield
/// the map the precedence law speaks of.
pub proof fn lemma_plan_composes_etc(host_etc: Set<Seq<char>>, fhs_etc: Set<Seq<char>>)
    ensures
        apply_etc_steps(Map::empty(), spec_compose_plan(), host_etc, fhs_etc) == compose_etc(
            host_etc,
            fhs_etc,
        ),
{
    reveal_with_fuel(apply_etc_steps, 11);
    let p = spec_compose_plan();
    assert(p.drop_first() =~= p.subrange(1, 9));
    assert(p.subrange(1, 9).drop_first() =~= p.subrange(2, 9));
    assert(p.subrange(2, 9).drop_first() =~= p.subrange(3, 9));
    assert(p.subrange(3, 9).drop_first() =~= p.subrange(4, 9));
    assert(p.subrange(4, 9).drop_first() =~= p.subrange(5, 9));
    assert(p.subrange(5, 9).drop_first() =~= p.subrange(6, 9));
    assert(p.subrange(6, 9).drop_first() =~= p.subrange(7, 9));
    assert(p.subrange(7, 9).drop_first() =~= p.subrange(8, 9));
    assert(p.subrange(8, 9).drop_first() =~= Seq::<ComposeStep>::empty());
    let host_excl = spec_step_exclusions(ComposeStep::BindHostEtc);
    assert forall|x: Seq<char>| host_excl.contains(x) implies x == ld_so_conf_name() by {
        let i = choose|i: int| 0 <= i < host_excl.len() && host_excl[i] == x;
        assert(i == 0);
    }
    assert(host_excl[0] == ld_so_conf_name());
    assert(host_excl.contains(ld_so_conf_name()));
    assert(host_excl.to_set() =~~= Set::<Seq<char>>::empty().insert(ld_so_conf_name()));
    assert(spec_step_exclusions(ComposeStep::BindFhsEtc).to_set() =~~= Set::<Seq<char>>::empty());
    assert(apply_etc_steps(Map::empty(), p, host_etc, fhs_etc) =~~= compose_etc(
        host_etc,
        fhs_etc,
    ));
}

/// The exclusion set each bind-set step of the composition runs with.
pub fn step_exclusions(step: ComposeStep) -> (r: Vec<String>)
    ensures
        r@.map_values(|s: String| s@) == spec_step_exclusions(step),
{
    let mut r: Vec<String> = Vec::new();
    match step {
        ComposeStep::BindFhsTop => {
            r.push("etc".to_owned());
        },
        ComposeStep::BindHostEtc => {
            r.push("ld.so.conf".to_owned());
        },
        ComposeStep::BindHostTop => {
            r.push("etc".to_owned());
            r.push("tmp".to_owned());
        },
        _ => {},
    }
    assert(r@.map_values(|s: String| s@) =~~= spec_step_exclusions(step));
    r
}

} // verus!
