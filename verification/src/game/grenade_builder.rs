//! The arsenal: grenades put together from a few settings, kept in
//! registers, and gathered into clusters.

use vstd::prelude::*;
use std::rc::Rc;
use crate::charms::{share, Cast};
use crate::forms::effects::ClusterCast;
use crate::forms::presets::{cluster_grenade, grenade, spec_bolt, spec_smoke};
use crate::units::{Displacement, Scalar, DOT};

verus! {

#[derive(Clone, Copy, Debug, PartialEq, Eq, Structural)]
pub enum Level {
    Low,
    Medium,
    High,
}

impl Level {
    /// The one of three values that goes with the level.
    pub open spec fn spec_pick<T>(self, low: T, medium: T, high: T) -> T {
        match self {
            Level::Low => low,
            Level::Medium => medium,
            Level::High => high,
        }
    }

    /// The one of three values that goes with the level.
    pub fn pick<T>(self, low: T, medium: T, high: T) -> (chosen: T)
        ensures
            chosen == self.spec_pick(low, medium, high),
    {
        match self {
            Level::Low => low,
            Level::Medium => medium,
            Level::High => high,
        }
    }
}

/// The colour that three levels of red, green and blue make, as a value.
pub open spec fn spec_color_from_levels(settings: Seq<Level>) -> [u8; 3] {
    [
        settings[0].spec_pick(0x22u8, 0x99u8, 0xFFu8),
        settings[1].spec_pick(0x22u8, 0x99u8, 0xFFu8),
        settings[2].spec_pick(0x22u8, 0x99u8, 0xFFu8),
    ]
}

/// The colour that three levels of red, green and blue make.
pub fn color_from_levels(settings: [Level; 3]) -> (color: [u8; 3])
    ensures
        color == spec_color_from_levels(settings@),
{
    let red = settings[0].pick(0x22, 0x99, 0xFF);
    let green = settings[1].pick(0x22, 0x99, 0xFF);
    let blue = settings[2].pick(0x22, 0x99, 0xFF);

    [red, green, blue]
}

/// The grenade that four settings make, as a value: three levels of colour
/// for its smoke and one of the smoke's radius.
pub open spec fn spec_basic_grenade(settings: Seq<Level>) -> Cast {
    spec_bolt(
        Rc::new(
            spec_smoke(
                spec_color_from_levels(settings),
                (settings[3].spec_pick(20int, 80int, 120int) * DOT) as Scalar,
            ),
        ),
    )
}

/// The grenade that four settings make.
pub fn basic_grenade(settings: [Level; 4]) -> (cast: Rc<Cast>)
    ensures
        *cast == spec_basic_grenade(settings@),
{
    let color_levels = [settings[0], settings[1], settings[2]];
    let color = color_from_levels(color_levels);
    let step: Scalar = settings[3].pick(20, 80, 120);
    let radius = step * DOT;
    proof {
        assert(spec_color_from_levels(color_levels@) == spec_color_from_levels(settings@));
    }

    grenade(color, radius)
}

/// What is loaded: the grenade of a register, or a cluster that no register
/// holds yet.
enum IndexEnum {
    Register(usize),
    Dangle(Rc<Cast>),
}

/// How many registers the arsenal has.
pub const REGISTERS: usize = 10;

pub struct Builder {
    settings: [Level; 4],
    current: IndexEnum,
    available: Vec<Rc<Cast>>,
    cluster_buffer: Vec<(Displacement, Rc<Cast>)>,
}

pub enum ArsenalUpdate {
    SetLevel { which: usize, level: Level },
    LoadNade { which: usize },
    SaveNade { which: usize },
    BuildBasic,
    BuildCluster,
}

impl ArsenalUpdate {
    /// Whether the update names a setting or a register that there is.
    pub open spec fn valid(self) -> bool {
        match self {
            ArsenalUpdate::SetLevel { which, level } => which < 4,
            ArsenalUpdate::LoadNade { which } => which < REGISTERS,
            ArsenalUpdate::SaveNade { which } => which < REGISTERS,
            ArsenalUpdate::BuildBasic => true,
            ArsenalUpdate::BuildCluster => true,
        }
    }
}

/// What the arsenal holds, as a mathematical value.
pub struct Arsenal {
    /// The levels of red, green, blue and radius.
    pub settings: Seq<Level>,
    /// The grenades in the registers.
    pub available: Seq<Rc<Cast>>,
    /// The grenade that is cast next.
    pub current: Rc<Cast>,
    /// The register that is loaded, unless a cluster is.
    pub register: Option<usize>,
    /// What the next cluster is made of.
    pub cluster_buffer: Seq<(Displacement, Rc<Cast>)>,
}

impl Arsenal {
    /// Whether the arsenal is as it is at the start: every setting low, the
    /// grenade of those settings in every register, the first register
    /// loaded, and nothing gathered for a cluster.
    pub open spec fn is_initial(self) -> bool {
        &&& self.settings == seq![Level::Low, Level::Low, Level::Low, Level::Low]
        &&& self.available.len() == REGISTERS
        &&& forall|i: int|
            0 <= i < REGISTERS ==> *(#[trigger] self.available[i]) == spec_basic_grenade(
                self.settings,
            )
        &&& self.register == Some(0usize)
        &&& self.current == self.available[0]
        &&& self.cluster_buffer.len() == 0
    }

    /// The arsenal after `update` was applied; for the building of a cluster
    /// see `leads_to`.
    pub open spec fn applied(self, update: ArsenalUpdate) -> Arsenal {
        match update {
            ArsenalUpdate::SetLevel { which, level } => self.with_settings(
                self.settings.update(which as int, level),
            ),
            ArsenalUpdate::LoadNade { which } => self.loaded(which),
            ArsenalUpdate::SaveNade { which } => self.saved(which),
            ArsenalUpdate::BuildBasic => self.with_settings(self.settings),
            ArsenalUpdate::BuildCluster => self,
        }
    }

    /// Whether `after` is the arsenal after `update` was applied. Building
    /// a cluster makes a new grenade of what was gathered and loads it;
    /// where nothing was gathered, nothing changes.
    pub open spec fn leads_to(self, update: ArsenalUpdate, after: Arsenal) -> bool {
        if update is BuildCluster {
            if self.cluster_buffer.len() > 0 {
                is_cluster_of(after.current, self.cluster_buffer) && after == self.clustered(
                    after.current,
                )
            } else {
                after == self
            }
        } else {
            after == self.applied(update)
        }
    }

    /// The arsenal after the settings were made `levels` and the basic
    /// grenade, which the first register holds, was built anew from them.
    pub open spec fn with_settings(self, levels: Seq<Level>) -> Arsenal {
        let basic = Rc::new(spec_basic_grenade(levels));
        Arsenal {
            settings: levels,
            available: self.available.update(0, basic),
            current: if self.register == Some(0usize) {
                basic
            } else {
                self.current
            },
            ..self
        }
    }

    /// The arsenal after the register `which` was loaded.
    pub open spec fn loaded(self, which: usize) -> Arsenal {
        Arsenal { current: self.available[which as int], register: Some(which), ..self }
    }

    /// The arsenal after what is loaded was saved to the register `which`.
    /// The first register is not to be saved to: it holds the basic grenade.
    pub open spec fn saved(self, which: usize) -> Arsenal {
        if which > 0 {
            Arsenal { available: self.available.update(which as int, self.current), ..self }
        } else {
            self
        }
    }

    /// The arsenal after `offset` and what is loaded was put with what the
    /// next cluster is made of.
    pub open spec fn gathered(self, offset: Displacement) -> Arsenal {
        Arsenal { cluster_buffer: self.cluster_buffer.push((offset, self.current)), ..self }
    }

    /// The arsenal after `cluster` was built of what was gathered: it is
    /// loaded, and what it was made of is used up.
    pub open spec fn clustered(self, cluster: Rc<Cast>) -> Arsenal {
        Arsenal { current: cluster, register: None, cluster_buffer: Seq::empty(), ..self }
    }
}

impl View for Builder {
    type V = Arsenal;

    closed spec fn view(&self) -> Arsenal {
        Arsenal {
            settings: self.settings@,
            available: self.available@,
            current: match self.current {
                IndexEnum::Register(which) => self.available@[which as int],
                IndexEnum::Dangle(nade) => nade,
            },
            register: match self.current {
                IndexEnum::Register(which) => Some(which),
                IndexEnum::Dangle(_) => None,
            },
            cluster_buffer: self.cluster_buffer@,
        }
    }
}

impl Builder {
    #[verifier::type_invariant]
    closed spec fn well_formed(self) -> bool {
        &&& self.available@.len() == REGISTERS
        &&& self.current matches IndexEnum::Register(which) ==> which < REGISTERS
    }

    /// An arsenal with every setting low, the grenade of those settings in
    /// every register, and the first register loaded.
    pub fn new() -> (builder: Builder)
        ensures
            builder@.is_initial(),
    {
        let settings = [Level::Low, Level::Low, Level::Low, Level::Low];

        let current = IndexEnum::Register(0);

        let def_nade = basic_grenade(settings);
        let mut available: Vec<Rc<Cast>> = Vec::new();
        let mut i: usize = 0;
        while i < REGISTERS
            invariant
                i <= REGISTERS,
                available@.len() == i,
                forall|j: int| 0 <= j < i ==> (#[trigger] available@[j]) == def_nade,
            decreases REGISTERS - i,
        {
            available.push(share(&def_nade));
            i = i + 1;
        }
        let cluster_buffer = Vec::new();

        Builder { settings, current, available, cluster_buffer }
    }

    /// Applies an update that names a setting or a register that there is.
    pub fn apply_update(&mut self, upd: ArsenalUpdate)
        requires
            upd.valid(),
        ensures
            old(self)@.leads_to(upd, final(self)@),
    {
        match upd {
            ArsenalUpdate::SetLevel { which, level } => {
                proof {
                    use_type_invariant(&*self);
                }
                let mut settings = self.settings;
                settings[which] = level;
                self.settings = settings;
                self.build_basic();
            },
            ArsenalUpdate::LoadNade { which } => {
                self.load(which);
            },
            ArsenalUpdate::SaveNade { which } => {
                self.save(which);
            },
            ArsenalUpdate::BuildBasic => {
                self.build_basic();
            },
            ArsenalUpdate::BuildCluster => {
                self.build_cluster();
            },
        }
    }

    /// The grenades in the registers, each shared once more.
    fn registers(&self) -> (available: Vec<Rc<Cast>>)
        ensures
            available@ == self@.available,
            available@.len() == REGISTERS,
    {
        proof {
            use_type_invariant(self);
        }
        let mut available: Vec<Rc<Cast>> = Vec::new();
        let mut i: usize = 0;
        while i < REGISTERS
            invariant
                i <= REGISTERS,
                self.available@.len() == REGISTERS,
                available@ == self.available@.take(i as int),
            decreases REGISTERS - i,
        {
            available.push(share(&self.available[i]));
            assert(available@ =~= self.available@.take(i + 1));
            i = i + 1;
        }
        assert(available@ =~= self.available@);
        available
    }

    fn load(&mut self, which: usize)
        requires
            which < REGISTERS,
        ensures
            final(self)@ == old(self)@.loaded(which),
    {
        proof {
            use_type_invariant(&*self);
        }
        self.current = IndexEnum::Register(which);
    }

    fn save(&mut self, which: usize)
        requires
            which < REGISTERS,
        ensures
            final(self)@ == old(self)@.saved(which),
    {
        proof {
            use_type_invariant(&*self);
        }
        if which > 0 {
            let nade = self.current();
            let mut available = self.registers();
            available.set(which, nade);
            let current = match &self.current {
                IndexEnum::Register(loaded) => IndexEnum::Register(*loaded),
                IndexEnum::Dangle(nade) => IndexEnum::Dangle(share(nade)),
            };
            let mut cluster_buffer = Vec::new();
            core::mem::swap(&mut self.cluster_buffer, &mut cluster_buffer);
            *self = Builder { settings: self.settings, current, available, cluster_buffer };
        }
    }

    fn build_basic(&mut self)
        ensures
            final(self)@ == old(self)@.with_settings(old(self)@.settings),
    {
        proof {
            use_type_invariant(&*self);
        }
        let nade = basic_grenade(self.settings);
        let mut available = self.registers();
        available.set(0, nade);
        let current = match &self.current {
            IndexEnum::Register(loaded) => IndexEnum::Register(*loaded),
            IndexEnum::Dangle(nade) => IndexEnum::Dangle(share(nade)),
        };
        let mut cluster_buffer = Vec::new();
        core::mem::swap(&mut self.cluster_buffer, &mut cluster_buffer);
        *self = Builder { settings: self.settings, current, available, cluster_buffer };
    }

    /// Puts `offset` and what is loaded with what the next cluster is made
    /// of.
    pub fn add_to_cluster(&mut self, offset: Displacement)
        ensures
            final(self)@ == old(self)@.gathered(offset),
    {
        proof {
            use_type_invariant(&*self);
        }
        let new = self.current();
        let mut cluster_buffer = Vec::new();
        core::mem::swap(&mut self.cluster_buffer, &mut cluster_buffer);
        cluster_buffer.push((offset, new));
        core::mem::swap(&mut self.cluster_buffer, &mut cluster_buffer);
    }

    fn build_cluster(&mut self)
        ensures
            old(self)@.leads_to(ArsenalUpdate::BuildCluster, final(self)@),
    {
        proof {
            use_type_invariant(&*self);
        }
        if self.cluster_buffer.len() > 0 {
            let mut buffer = Vec::new();
            core::mem::swap(&mut self.cluster_buffer, &mut buffer);
            let nade = cluster_grenade(buffer);
            let available = self.registers();
            *self = Builder {
                settings: self.settings,
                current: IndexEnum::Dangle(nade),
                available,
                cluster_buffer: Vec::new(),
            };
        }
    }

    /// The grenade that is cast next: the one in the register that is
    /// loaded, or the cluster that was built last.
    pub fn current(&self) -> (cast: Rc<Cast>)
        ensures
            cast == self@.current,
    {
        proof {
            use_type_invariant(self);
        }
        match &self.current {
            IndexEnum::Register(which) => share(&self.available[*which]),
            IndexEnum::Dangle(nade) => share(nade),
        }
    }
}

/// What a cluster grenade was made of; meaningful for a bolt that carries a
/// cluster.
pub open spec fn built(cluster: Rc<Cast>) -> Vec<(Displacement, Rc<Cast>)> {
    (*(*cluster)->Bolt_0.action)->Cluster_0.actions
}

/// Whether `cluster` is the cluster grenade made of `parts`: the bolt of
/// every preset, carrying a cluster of just those parts.
pub open spec fn is_cluster_of(cluster: Rc<Cast>, parts: Seq<(Displacement, Rc<Cast>)>) -> bool {
    &&& *cluster == spec_bolt(Rc::new(Cast::Cluster(ClusterCast { actions: built(cluster) })))
    &&& built(cluster)@ == parts
}

} // verus!
