//! The first pass of the transform over the layers of an avatar: every layer name is recorded
//! with what later references to it need, before anything is resolved.
use vstd::prelude::*;
use vstd::string::*;

use crate::declaration::SwitchSource;
use crate::resolution::{duplicate_location, SourceLocation, Unresolved};
use crate::transform_error::{TransformError, TransformErrorKind};

verus! {

/// A reference to a name, as a value: the name and where it was written.
pub type ReferenceView = (Seq<char>, Option<(Seq<char>, u32)>);

/// What the first pass reads of one option of a group layer.
#[derive(Debug, Clone)]
pub struct OptionOutline {
    pub name: String,
    pub at: Option<SourceLocation>,
}

/// What the first pass reads of a puppet layer.
#[derive(Debug, Clone)]
pub struct PuppetOutline {
    pub name: String,
    pub driven_by: Option<Unresolved<String>>,
    pub at: Option<SourceLocation>,
}

/// What the first pass reads of a declared layer: its name, where it was written, the parameter
/// it names, and for a group its options, for a blend the puppets it holds.
#[derive(Debug, Clone)]
pub enum LayerOutline {
    Group {
        name: String,
        driven_by: Option<Unresolved<String>>,
        options: Vec<OptionOutline>,
        at: Option<SourceLocation>,
    },
    /// A switch follows a parameter, or a gate, or else the parameter with its own name.
    Switch { name: String, source: Option<SwitchSource>, at: Option<SourceLocation> },
    Puppet(PuppetOutline),
    Blend { name: String, puppets: Vec<PuppetOutline>, at: Option<SourceLocation> },
    Raw { name: String, at: Option<SourceLocation> },
}

/// What the first pass knows about a layer: enough to resolve `da.drive_*` against it.
#[derive(Debug, Clone, PartialEq)]
pub enum LayerInfo {
    /// The parameter the group follows, and the value each option sets it to.
    Group { parameter: Unresolved<String>, options: Vec<(String, i64)> },
    Switch { parameter: Unresolved<String> },
    Puppet { parameter: Unresolved<String> },
    Blend,
    Raw,
}

/// A `LayerInfo` as a value.
pub enum LayerShape {
    Group { parameter: ReferenceView, options: Seq<(Seq<char>, i64)> },
    Switch { parameter: ReferenceView },
    Puppet { parameter: ReferenceView },
    Blend,
    Raw,
}

impl View for LayerInfo {
    type V = LayerShape;

    open spec fn view(&self) -> LayerShape {
        match self {
            LayerInfo::Group { parameter, options } => LayerShape::Group {
                parameter: parameter.deep_view(),
                options: options@.map_values(|option: (String, i64)| (option.0@, option.1)),
            },
            LayerInfo::Switch { parameter } => LayerShape::Switch { parameter: parameter.deep_view() },
            LayerInfo::Puppet { parameter } => LayerShape::Puppet { parameter: parameter.deep_view() },
            LayerInfo::Blend => LayerShape::Blend,
            LayerInfo::Raw => LayerShape::Raw,
        }
    }
}

/// The word a script writer uses for a layer of this shape.
pub open spec fn kind_of(shape: LayerShape) -> &'static str {
    match shape {
        LayerShape::Group { .. } => "group",
        LayerShape::Switch { .. } => "switch",
        LayerShape::Puppet { .. } => "puppet",
        LayerShape::Blend => "blend",
        LayerShape::Raw => "raw",
    }
}

impl LayerInfo {
    pub fn kind(&self) -> (kind: &'static str)
        ensures
            kind == kind_of(self@),
    {
        match self {
            LayerInfo::Group { .. } => "group",
            LayerInfo::Switch { .. } => "switch",
            LayerInfo::Puppet { .. } => "puppet",
            LayerInfo::Blend => "blend",
            LayerInfo::Raw => "raw",
        }
    }
}

/// What a switch follows: a parameter, or a gate, which is driven through the parameter of the
/// same name.
pub open spec fn source_view(source: Option<SwitchSource>) -> Option<ReferenceView> {
    match source {
        Some(SwitchSource::Parameter(parameter)) => Some(parameter.deep_view()),
        Some(SwitchSource::Gate(gate)) => Some(gate.deep_view()),
        None => None,
    }
}

/// What a switch follows, by reference.
pub fn source_reference(source: &Option<SwitchSource>) -> (reference: Option<&Unresolved<String>>)
    ensures
        reference.deep_view() == source_view(*source),
{
    match source {
        Some(SwitchSource::Parameter(parameter)) => Some(parameter),
        Some(SwitchSource::Gate(gate)) => Some(gate),
        None => None,
    }
}

/// The parameter a layer follows: what `driven_by` names, or the layer's own name, written where
/// the layer was, when it is omitted.
pub open spec fn driver_view(
    written: Option<ReferenceView>,
    layer_name: Seq<char>,
    at: Option<(Seq<char>, u32)>,
) -> ReferenceView {
    match written {
        Some(parameter) => parameter,
        None => (layer_name, at),
    }
}

/// The parameter a layer follows: what `driven_by` names, or the layer's own name when it is
/// omitted.
pub fn driver(written: Option<&Unresolved<String>>, layer_name: &str, at: Option<&SourceLocation>) -> (parameter:
    Unresolved<String>)
    ensures
        parameter.deep_view() == driver_view(written.deep_view(), layer_name@, at.deep_view()),
{
    match written {
        Some(parameter) => parameter.duplicate(),
        None => Unresolved {
            value: layer_name.to_owned(),
            at: match at {
                Some(location) => Some(location.duplicate()),
                None => None,
            },
        },
    }
}

/// Name of the float parameter that weights one child of a blend layer.
pub fn weight_parameter(blend: &str, puppet: &str) -> (name: String)
    ensures
        name@ == blend@ + "/"@ + puppet@,
{
    let mut name = String::from_str(blend);
    name.append("/");
    name.append(puppet);
    name
}

/// The error for a drive that names a layer of another kind than it needs.
pub fn kind_mismatch(layer: &Unresolved<String>, expected: &'static str, found: &LayerInfo) -> (error: TransformError)
    ensures
        error == (TransformError {
            at: layer.at,
            kind: TransformErrorKind::LayerKindMismatch { name: layer.value, expected, found: kind_of(found@) },
        }),
{
    TransformErrorKind::LayerKindMismatch { name: layer.value.clone(), expected, found: found.kind() }.at(
        duplicate_location(&layer.at),
    )
}

/// The value each option of a group sets its parameter to: its position, counted from one.
pub open spec fn option_values(options: Seq<OptionOutline>) -> Seq<(Seq<char>, i64)> {
    Seq::new(options.len(), |i: int| (options[i].name@, (i + 1) as i64))
}

/// The names of the options.
pub open spec fn option_names(options: Seq<OptionOutline>) -> Seq<Seq<char>> {
    options.map_values(|option: OptionOutline| option.name@)
}

/// The first option whose name an earlier option already has.
pub open spec fn duplicate_option(options: Seq<OptionOutline>) -> Option<int>
    decreases options.len(),
{
    if options.len() == 0 {
        None
    } else {
        match duplicate_option(options.drop_last()) {
            Some(earlier) => Some(earlier),
            None => if option_names(options.drop_last()).contains(options.last().name@) {
                Some(options.len() - 1)
            } else {
                None
            },
        }
    }
}

/// Recording `name` with `shape`: refused when the name is taken.
pub open spec fn register_step(
    table: Map<Seq<char>, LayerShape>,
    name: String,
    shape: LayerShape,
    at: Option<SourceLocation>,
) -> (Map<Seq<char>, LayerShape>, Option<TransformError>) {
    if table.dom().contains(name@) {
        (table, Some(TransformError { at, kind: TransformErrorKind::DuplicateLayer { name } }))
    } else {
        (table.insert(name@, shape), None)
    }
}

pub open spec fn puppet_shape(puppet: PuppetOutline) -> LayerShape {
    LayerShape::Puppet { parameter: driver_view(puppet.driven_by.deep_view(), puppet.name@, puppet.at.deep_view()) }
}

/// Recording the puppets of a blend in order, stopping at the first name that is taken.
pub open spec fn register_puppets(table: Map<Seq<char>, LayerShape>, puppets: Seq<PuppetOutline>) -> (
    Map<Seq<char>, LayerShape>,
    Option<TransformError>,
)
    decreases puppets.len(),
{
    if puppets.len() == 0 {
        (table, None)
    } else {
        let (before, error) = register_puppets(table, puppets.drop_last());
        if error is Some {
            (before, error)
        } else {
            let last = puppets.last();
            register_step(before, last.name, puppet_shape(last), last.at)
        }
    }
}

/// What recording one declared layer does to the table, and the error it reports, if any.
pub open spec fn layer_step(table: Map<Seq<char>, LayerShape>, layer: LayerOutline) -> (
    Map<Seq<char>, LayerShape>,
    Option<TransformError>,
) {
    match layer {
        LayerOutline::Group { name, driven_by, options, at } => match duplicate_option(options@) {
            Some(index) => (
                table,
                Some(
                    TransformError {
                        at: match options@[index].at {
                            Some(own) => Some(own),
                            None => at,
                        },
                        kind: TransformErrorKind::DuplicateOption { layer: name, option: options@[index].name },
                    },
                ),
            ),
            None => register_step(
                table,
                name,
                LayerShape::Group {
                    parameter: driver_view(driven_by.deep_view(), name@, at.deep_view()),
                    options: option_values(options@),
                },
                at,
            ),
        },
        LayerOutline::Switch { name, source, at } => register_step(
            table,
            name,
            LayerShape::Switch { parameter: driver_view(source_view(source), name@, at.deep_view()) },
            at,
        ),
        LayerOutline::Puppet(puppet) => register_step(table, puppet.name, puppet_shape(puppet), puppet.at),
        LayerOutline::Blend { name, puppets, at } => {
            let (after_blend, error) = register_step(table, name, LayerShape::Blend, at);
            if error is Some {
                (after_blend, error)
            } else {
                register_puppets(after_blend, puppets@)
            }
        },
        LayerOutline::Raw { name, at } => register_step(table, name, LayerShape::Raw, at),
    }
}

/// Recording every declared layer in order, keeping going after an error so that one run reports
/// them all.
pub open spec fn collect_layers(table: Map<Seq<char>, LayerShape>, layers: Seq<LayerOutline>) -> (
    Map<Seq<char>, LayerShape>,
    Seq<TransformError>,
)
    decreases layers.len(),
{
    if layers.len() == 0 {
        (table, Seq::empty())
    } else {
        let (before, errors) = collect_layers(table, layers.drop_last());
        let (after, error) = layer_step(before, layers.last());
        match error {
            Some(error) => (after, errors.push(error)),
            None => (after, errors),
        }
    }
}

/// Every layer of the avatar by name, with what the first pass learned about it.
#[derive(Debug, Clone)]
pub struct LayerTable {
    entries: Vec<(String, LayerInfo)>,
}

impl LayerTable {
    /// No name is recorded twice.
    pub closed spec fn wf(&self) -> bool {
        forall|i: int, j: int|
            0 <= i < j < self.entries@.len() ==> #[trigger] self.entries@[i].0@ != #[trigger] self.entries@[j].0@
    }

    /// Each recorded layer by name.
    pub closed spec fn layers(&self) -> Map<Seq<char>, LayerShape> {
        Map::new(
            |name: Seq<char>| exists|i: int| 0 <= i < self.entries@.len() && self.entries@[i].0@ == name,
            |name: Seq<char>|
                self.entries@[choose|i: int| 0 <= i < self.entries@.len() && self.entries@[i].0@ == name].1@,
        )
    }

    /// Each recorded layer by name, as it was recorded.
    pub closed spec fn infos(&self) -> Map<Seq<char>, LayerInfo> {
        Map::new(
            |name: Seq<char>| exists|i: int| 0 <= i < self.entries@.len() && self.entries@[i].0@ == name,
            |name: Seq<char>|
                self.entries@[choose|i: int| 0 <= i < self.entries@.len() && self.entries@[i].0@ == name].1,
        )
    }

    pub fn new() -> (table: LayerTable)
        ensures
            table.wf(),
            table.layers() == Map::<Seq<char>, LayerShape>::empty(),
    {
        let table = LayerTable { entries: Vec::new() };
        assert(table.layers() =~= Map::<Seq<char>, LayerShape>::empty());
        table
    }

    /// Where `name` is recorded, if it is.
    fn position(&self, name: &str) -> (found: Option<usize>)
        requires
            self.wf(),
        ensures
            match found {
                Some(i) => i < self.entries@.len() && self.entries@[i as int].0@ == name@
                    && self.layers().dom().contains(name@) && self.layers()[name@] == self.entries@[i as int].1@
                    && self.infos().dom().contains(name@) && self.infos()[name@] == self.entries@[i as int].1,
                None => !self.layers().dom().contains(name@) && !self.infos().dom().contains(name@),
            },
    {
        let wanted = name.to_owned();
        let mut i: usize = 0;
        while i < self.entries.len()
            invariant
                i <= self.entries@.len(),
                self.wf(),
                wanted@ == name@,
                forall|k: int| 0 <= k < i ==> self.entries@[k].0@ != name@,
            decreases self.entries@.len() - i,
        {
            if self.entries[i].0 == wanted {
                proof {
                    assert(self.layers().dom().contains(name@));
                    let chosen = choose|k: int| 0 <= k < self.entries@.len() && self.entries@[k].0@ == name@;
                    assert(chosen == i) by {
                        if chosen < i {
                        } else if chosen > i {
                            assert(self.entries@[i as int].0@ != self.entries@[chosen].0@);
                        }
                    }
                }
                return Some(i);
            }
            i = i + 1;
        }
        None
    }

    /// What is recorded about the layer `name`, if it is recorded.
    pub fn get(&self, name: &str) -> (found: Option<&LayerInfo>)
        requires
            self.wf(),
        ensures
            match found {
                Some(info) => self.layers().dom().contains(name@) && info@ == self.layers()[name@]
                    && self.infos().dom().contains(name@) && *info == self.infos()[name@],
                None => !self.layers().dom().contains(name@) && !self.infos().dom().contains(name@),
            },
    {
        match self.position(name) {
            Some(i) => Some(&self.entries[i].1),
            None => None,
        }
    }

    /// The layer a reference names, or the error for a name no layer has.
    pub fn layer(&self, reference: &Unresolved<String>) -> (found: Result<&LayerInfo, TransformError>)
        requires
            self.wf(),
        ensures
            match found {
                Ok(info) => self.layers().dom().contains(reference.value@) && info@ == self.layers()[reference.value@]
                    && self.infos().dom().contains(reference.value@) && *info == self.infos()[reference.value@],
                Err(error) => !self.layers().dom().contains(reference.value@) && !self.infos().dom().contains(
                    reference.value@,
                ) && error == (TransformError {
                    at: reference.at,
                    kind: TransformErrorKind::UnknownLayer { name: reference.value },
                }),
            },
    {
        match self.get(reference.value.as_str()) {
            Some(info) => Ok(info),
            None => Err(
                TransformErrorKind::UnknownLayer { name: reference.value.clone() }.at(
                    duplicate_location(&reference.at),
                ),
            ),
        }
    }

    fn push_new(&mut self, name: String, info: LayerInfo)
        requires
            old(self).wf(),
            !old(self).layers().dom().contains(name@),
        ensures
            final(self).wf(),
            final(self).layers() == old(self).layers().insert(name@, info@),
    {
        let ghost before = self.entries@;
        let ghost shape = info@;
        self.entries.push((name, info));
        proof {
            let last = before.len() as int;
            let key = self.entries@[last].0@;
            assert forall|n: Seq<char>| #[trigger] self.layers().dom().contains(n) == old(self).layers().insert(
                key,
                shape,
            ).dom().contains(n) by {
                if n == key {
                    assert(self.entries@[last].0@ == n);
                } else if old(self).layers().dom().contains(n) {
                    let k = choose|k: int| 0 <= k < before.len() && before[k].0@ == n;
                    assert(self.entries@[k] == before[k]);
                }
            }
            assert forall|n: Seq<char>| #[trigger] self.layers().dom().contains(n) implies self.layers()[n]
                == old(self).layers().insert(key, shape)[n] by {
                let chosen = choose|k: int| 0 <= k < self.entries@.len() && self.entries@[k].0@ == n;
                if n == key {
                    assert(chosen == last);
                } else {
                    assert(chosen < last);
                    assert(self.entries@[chosen] == before[chosen]);
                    let k = choose|k: int| 0 <= k < before.len() && before[k].0@ == n;
                    assert(k == chosen) by {
                        if k != chosen {
                            if k < chosen {
                                assert(before[k].0@ != before[chosen].0@);
                            } else {
                                assert(before[chosen].0@ != before[k].0@);
                            }
                        }
                    }
                }
            }
            assert(self.layers() =~= old(self).layers().insert(key, shape));
        }
    }

    /// Records `name` with `info`, refusing a name that is already recorded.
    pub fn register(&mut self, name: &String, info: LayerInfo, at: Option<&SourceLocation>) -> (result: Result<
        (),
        TransformError,
    >)
        requires
            old(self).wf(),
        ensures
            final(self).wf(),
            (final(self).layers(), error_of(result)) == register_step(old(self).layers(), *name, info@, owned(at)),
    {
        if self.position(name.as_str()).is_some() {
            return Err(
                TransformErrorKind::DuplicateLayer { name: name.clone() }.at(
                    match at {
                        Some(location) => Some(location.duplicate()),
                        None => None,
                    },
                ),
            );
        }
        self.push_new(name.clone(), info);
        Ok(())
    }

    fn register_puppet(&mut self, puppet: &PuppetOutline) -> (result: Result<(), TransformError>)
        requires
            old(self).wf(),
        ensures
            final(self).wf(),
            (final(self).layers(), error_of(result)) == register_step(
                old(self).layers(),
                puppet.name,
                puppet_shape(*puppet),
                puppet.at,
            ),
    {
        let info = LayerInfo::Puppet {
            parameter: driver(puppet.driven_by.as_ref(), puppet.name.as_str(), puppet.at.as_ref()),
        };
        self.register(&puppet.name, info, puppet.at.as_ref())
    }

    /// Records one declared layer, or reports why it cannot be recorded. A blend records itself and
    /// then its puppets in order, and stops at the first name that is taken; what it recorded
    /// before that stays.
    pub fn collect_layer(&mut self, layer: &LayerOutline) -> (result: Result<(), TransformError>)
        requires
            old(self).wf(),
            layer matches LayerOutline::Group { options, .. } ==> options@.len() < i64::MAX,
        ensures
            final(self).wf(),
            (final(self).layers(), error_of(result)) == layer_step(old(self).layers(), *layer),
    {
        match layer {
            LayerOutline::Group { name, driven_by, options, at } => {
                let values = match check_options(name, options, at) {
                    Ok(values) => values,
                    Err(error) => return Err(error),
                };
                let info = LayerInfo::Group {
                    parameter: driver(driven_by.as_ref(), name.as_str(), at.as_ref()),
                    options: values,
                };
                self.register(name, info, at.as_ref())
            },
            LayerOutline::Switch { name, source, at } => {
                let info = LayerInfo::Switch { parameter: driver(source_reference(source), name.as_str(), at.as_ref()) };
                self.register(name, info, at.as_ref())
            },
            LayerOutline::Puppet(puppet) => self.register_puppet(puppet),
            LayerOutline::Blend { name, puppets, at } => {
                let blend_at = at.as_ref();
                assert(owned(blend_at) == *at);
                match self.register(name, LayerInfo::Blend, blend_at) {
                    Ok(()) => {},
                    Err(error) => return Err(error),
                }
                let ghost after_blend = self.layers();
                assert(register_step(old(self).layers(), *name, LayerShape::Blend, *at) == (after_blend, None::<
                    TransformError,
                >));
                let mut i: usize = 0;
                while i < puppets.len()
                    invariant
                        i <= puppets@.len(),
                        self.wf(),
                        *layer == (LayerOutline::Blend { name: *name, puppets: *puppets, at: *at }),
                        register_step(old(self).layers(), *name, LayerShape::Blend, *at) == (after_blend, None::<
                            TransformError,
                        >),
                        (self.layers(), None::<TransformError>) == register_puppets(
                            after_blend,
                            puppets@.take(i as int),
                        ),
                    decreases puppets@.len() - i,
                {
                    assert(puppets@.take(i + 1).drop_last() =~= puppets@.take(i as int));
                    match self.register_puppet(&puppets[i]) {
                        Ok(()) => {},
                        Err(error) => {
                            assert(puppets@.take(i + 1).last() == puppets@[i as int]);
                            assert(register_puppets(after_blend, puppets@.take(i + 1)) == (self.layers(), Some(error)));
                            proof {
                                lemma_register_puppets_stops(after_blend, puppets@, i as int + 1);
                            }
                            return Err(error);
                        },
                    }
                    i = i + 1;
                }
                assert(puppets@.take(puppets@.len() as int) =~= puppets@);
                Ok(())
            },
            LayerOutline::Raw { name, at } => self.register(name, LayerInfo::Raw, at.as_ref()),
        }
    }

    /// Runs the first pass over every declared layer, in order.
    pub fn collect(layers: &Vec<LayerOutline>) -> (collected: (LayerTable, Vec<TransformError>))
        requires
            forall|i: int|
                0 <= i < layers@.len() ==> (#[trigger] layers@[i] matches LayerOutline::Group { options, .. }
                    ==> options@.len() < i64::MAX),
        ensures
            collected.0.wf(),
            (collected.0.layers(), collected.1@) == collect_layers(Map::empty(), layers@),
    {
        let mut table = LayerTable::new();
        let mut errors: Vec<TransformError> = Vec::new();
        let mut i: usize = 0;
        while i < layers.len()
            invariant
                i <= layers@.len(),
                table.wf(),
                forall|k: int|
                    0 <= k < layers@.len() ==> (#[trigger] layers@[k] matches LayerOutline::Group { options, .. }
                        ==> options@.len() < i64::MAX),
                (table.layers(), errors@) == collect_layers(Map::empty(), layers@.take(i as int)),
            decreases layers@.len() - i,
        {
            assert(layers@.take(i + 1).drop_last() =~= layers@.take(i as int));
            assert(layers@.take(i + 1).last() == layers@[i as int]);
            match table.collect_layer(&layers[i]) {
                Ok(()) => {},
                Err(error) => errors.push(error),
            }
            i = i + 1;
        }
        assert(layers@.take(layers@.len() as int) =~= layers@);
        (table, errors)
    }
}

/// The error a step reported, if any.
pub open spec fn error_of(result: Result<(), TransformError>) -> Option<TransformError> {
    match result {
        Ok(()) => None,
        Err(error) => Some(error),
    }
}

/// A borrowed location as an owned one.
pub open spec fn owned(at: Option<&SourceLocation>) -> Option<SourceLocation> {
    match at {
        Some(location) => Some(*location),
        None => None,
    }
}

/// Once a puppet is refused, the later ones change nothing.
proof fn lemma_register_puppets_stops(table: Map<Seq<char>, LayerShape>, puppets: Seq<PuppetOutline>, k: int)
    requires
        0 <= k <= puppets.len(),
        register_puppets(table, puppets.take(k)).1 is Some,
    ensures
        register_puppets(table, puppets) == register_puppets(table, puppets.take(k)),
    decreases puppets.len() - k,
{
    if k < puppets.len() {
        assert(puppets.take(k + 1).drop_last() =~= puppets.take(k));
        assert(register_puppets(table, puppets.take(k + 1)) == register_puppets(table, puppets.take(k)));
        lemma_register_puppets_stops(table, puppets, k + 1);
    } else {
        assert(puppets.take(k) =~= puppets);
    }
}

/// Checks that no two options of a group share a name, and gives each option its value.
fn check_options(layer: &String, options: &Vec<OptionOutline>, at: &Option<SourceLocation>) -> (checked: Result<
    Vec<(String, i64)>,
    TransformError,
>)
    requires
        options@.len() < i64::MAX,
    ensures
        match duplicate_option(options@) {
            Some(index) => checked == Err::<Vec<(String, i64)>, TransformError>(
                TransformError {
                    at: match options@[index].at {
                        Some(own) => Some(own),
                        None => *at,
                    },
                    kind: TransformErrorKind::DuplicateOption { layer: *layer, option: options@[index].name },
                },
            ),
            None => checked is Ok && checked->Ok_0@.map_values(|option: (String, i64)| (option.0@, option.1))
                == option_values(options@),
        },
{
    let mut values: Vec<(String, i64)> = Vec::new();
    let mut i: usize = 0;
    while i < options.len()
        invariant
            i <= options@.len(),
            options@.len() < i64::MAX,
            duplicate_option(options@.take(i as int)) is None,
            values@.len() == i,
            forall|k: int| 0 <= k < i ==> #[trigger] values@[k].0@ == options@[k].name@ && values@[k].1 == k + 1,
        decreases options@.len() - i,
    {
        let name = &options[i].name;
        let mut k: usize = 0;
        while k < i
            invariant
                k <= i,
                i < options@.len(),
                values@.len() == i,
                forall|m: int| 0 <= m < i ==> #[trigger] values@[m].0@ == options@[m].name@,
                forall|m: int| 0 <= m < k ==> options@[m].name@ != name@,
                name == options@[i as int].name,
                duplicate_option(options@.take(i as int)) is None,
            decreases i - k,
        {
            if values[k].0 == *name {
                proof {
                    let prefix = options@.take(i + 1);
                    assert(prefix.drop_last() =~= options@.take(i as int));
                    assert(option_names(prefix.drop_last())[k as int] == name@);
                    assert(option_names(prefix.drop_last()).contains(prefix.last().name@));
                    assert(prefix.last() == options@[i as int]);
                    assert(duplicate_option(prefix.drop_last()) is None);
                    assert(prefix.len() == i + 1);
                    assert(duplicate_option(prefix) == Some(i as int));
                    lemma_duplicate_option_settles(options@, i as int + 1);
                }
                return Err(
                    TransformErrorKind::DuplicateOption { layer: layer.clone(), option: name.clone() }.at(
                        match &options[i].at {
                            Some(own) => Some(own.duplicate()),
                            None => duplicate_location(at),
                        },
                    ),
                );
            }
            k = k + 1;
        }
        proof {
            let prefix = options@.take(i + 1);
            assert(prefix.drop_last() =~= options@.take(i as int));
            assert(!option_names(prefix.drop_last()).contains(prefix.last().name@)) by {
                if option_names(prefix.drop_last()).contains(prefix.last().name@) {
                    let m = choose|m: int|
                        0 <= m < option_names(prefix.drop_last()).len() && option_names(prefix.drop_last())[m]
                            == prefix.last().name@;
                    assert(options@[m].name@ == name@);
                }
            }
        }
        let ghost before = values@;
        values.push((name.clone(), i as i64 + 1));
        assert forall|k: int| 0 <= k < i + 1 implies #[trigger] values@[k].0@ == options@[k].name@ && values@[k].1
            == k + 1 by {
            if k < i {
                assert(values@[k] == before[k]);
            }
        }
        i = i + 1;
    }
    proof {
        assert(options@.take(options@.len() as int) =~= options@);
        assert(values@.map_values(|option: (String, i64)| (option.0@, option.1)) =~= option_values(options@));
    }
    Ok(values)
}

/// Once an option repeats an earlier name, later options do not change which one is reported.
proof fn lemma_duplicate_option_settles(options: Seq<OptionOutline>, k: int)
    requires
        0 <= k <= options.len(),
        duplicate_option(options.take(k)) is Some,
    ensures
        duplicate_option(options) == duplicate_option(options.take(k)),
    decreases options.len() - k,
{
    if k < options.len() {
        assert(options.take(k + 1).drop_last() =~= options.take(k));
        lemma_duplicate_option_settles(options, k + 1);
    } else {
        assert(options.take(k) =~= options);
    }
}

} // verus!
