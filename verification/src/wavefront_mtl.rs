//! The text of a Wavefront MTL file, line by line: named materials, each
//! with an optional diffuse colour and an optional texture, and the list of
//! texture files, each named once.

use crate::text::{same_text, words, Words};
use crate::wavefront_obj::{are_numbers, expect_string, expect_xyz, name_view, FileError};
use vstd::prelude::*;

verus! {

/// What an MTL file says of one material: its diffuse colour, as the three
/// numbers are written, and its texture, as a place in the list of texture
/// files.
#[derive(Debug, Clone, PartialEq, Eq)]
pub struct MtlDefinition {
    pub diffusion: Option<(String, String, String)>,
    pub map: Option<usize>,
}

/// What an `MtlDefinition` holds, with each text as a sequence of characters.
pub struct MtlDefinitionView {
    pub diffusion: Option<(Seq<char>, Seq<char>, Seq<char>)>,
    pub map: Option<usize>,
}

impl View for MtlDefinition {
    type V = MtlDefinitionView;

    open spec fn view(&self) -> MtlDefinitionView {
        MtlDefinitionView {
            diffusion: match self.diffusion {
                Some((r, g, b)) => Some((r@, g@, b@)),
                None => None,
            },
            map: self.map,
        }
    }
}

impl MtlDefinition {
    /// A material of which nothing is said.
    pub fn new() -> (definition: MtlDefinition)
        ensures
            definition@ == (MtlDefinitionView { diffusion: None, map: None }),
    {
        MtlDefinition { diffusion: None, map: None }
    }
}

/// The materials of an MTL file in the order in which they were closed, each
/// under its name, and the texture files in the order in which they were
/// first named. Of two materials with one name the later one counts.
#[derive(Debug, Clone, PartialEq, Eq)]
pub struct WavefrontMtl {
    pub definitions: Vec<(String, MtlDefinition)>,
    pub maps: Vec<String>,
}

/// What a `WavefrontMtl` holds, as sequences.
pub struct WavefrontMtlView {
    pub definitions: Seq<(Seq<char>, MtlDefinitionView)>,
    pub maps: Seq<Seq<char>>,
}

impl WavefrontMtlView {
    /// Whether each texture that a material names is a place of the list of
    /// texture files.
    pub open spec fn well_formed(self) -> bool {
        forall|i: int|
            0 <= i < self.definitions.len() ==> (
            #[trigger] self.definitions[i].1.map matches Some(map) ==> map < self.maps.len())
    }
}

impl View for WavefrontMtl {
    type V = WavefrontMtlView;

    open spec fn view(&self) -> WavefrontMtlView {
        WavefrontMtlView {
            definitions: self.definitions@.map_values(
                |entry: (String, MtlDefinition)| (entry.0@, entry.1@),
            ),
            maps: self.maps@.map_values(|file: String| file@),
        }
    }
}

/// The first place at which `name` stands in `names`, if it stands there.
pub open spec fn first_place(names: Seq<Seq<char>>, name: Seq<char>) -> Option<int>
    decreases names.len(),
{
    if names.len() == 0 {
        None
    } else if first_place(names.drop_last(), name) is Some {
        first_place(names.drop_last(), name)
    } else if names.last() == name {
        Some(names.len() - 1)
    } else {
        None
    }
}

/// The last place at which a material called `name` stands in `definitions`,
/// if one stands there.
pub open spec fn last_place(
    definitions: Seq<(Seq<char>, MtlDefinitionView)>,
    name: Seq<char>,
) -> Option<int>
    decreases definitions.len(),
{
    if definitions.len() == 0 {
        None
    } else if definitions.last().0 == name {
        Some(definitions.len() - 1)
    } else {
        last_place(definitions.drop_last(), name)
    }
}

/// `first_place` finds a place that holds `name`, before which no place
/// holds it, and finds none only where no place holds it.
pub proof fn lemma_first_place(names: Seq<Seq<char>>, name: Seq<char>)
    ensures
        first_place(names, name) matches Some(place) ==> 0 <= place < names.len() && names[place]
            == name && forall|i: int| 0 <= i < place ==> names[i] != name,
        first_place(names, name) is None ==> forall|i: int|
            0 <= i < names.len() ==> names[i] != name,
    decreases names.len(),
{
    if names.len() > 0 {
        let init = names.drop_last();
        lemma_first_place(init, name);
        match first_place(names, name) {
            Some(place) => {
                assert forall|i: int| 0 <= i < place implies names[i] != name by {
                    assert(init[i] == names[i]);
                }
            },
            None => {
                assert forall|i: int| 0 <= i < names.len() implies names[i] != name by {
                    if i < init.len() {
                        assert(init[i] == names[i]);
                    }
                }
            },
        }
    }
}

/// `last_place` finds a place that holds a material called `name`, after
/// which no place holds one, and finds none only where no place holds one.
pub proof fn lemma_last_place(definitions: Seq<(Seq<char>, MtlDefinitionView)>, name: Seq<char>)
    ensures
        last_place(definitions, name) matches Some(place) ==> 0 <= place < definitions.len()
            && definitions[place].0 == name && forall|i: int|
            place < i < definitions.len() ==> definitions[i].0 != name,
        last_place(definitions, name) is None ==> forall|i: int|
            0 <= i < definitions.len() ==> definitions[i].0 != name,
    decreases definitions.len(),
{
    if definitions.len() > 0 {
        let init = definitions.drop_last();
        lemma_last_place(init, name);
        match last_place(definitions, name) {
            Some(place) => {
                assert forall|i: int| place < i < definitions.len() implies definitions[i].0
                    != name by {
                    if i < init.len() {
                        assert(init[i] == definitions[i]);
                    }
                }
            },
            None => {
                assert forall|i: int| 0 <= i < definitions.len() implies definitions[i].0
                    != name by {
                    if i < init.len() {
                        assert(init[i] == definitions[i]);
                    }
                }
            },
        }
    }
}

impl WavefrontMtl {
    /// No material and no texture file.
    pub fn new() -> (mtl: WavefrontMtl)
        ensures
            mtl@ == (WavefrontMtlView { definitions: Seq::empty(), maps: Seq::empty() }),
    {
        let mtl = WavefrontMtl { definitions: Vec::new(), maps: Vec::new() };
        assert(mtl@.definitions =~= Seq::empty());
        assert(mtl@.maps =~= Seq::empty());
        mtl
    }

    /// The place of the material that `name` stands for.
    pub fn find_definition(&self, name: &str) -> (place: Option<usize>)
        ensures
            place matches Some(place) ==> last_place(self@.definitions, name@) == Some(
                place as int,
            ),
            place is None ==> last_place(self@.definitions, name@) is None,
    {
        let mut i: usize = self.definitions.len();
        let ghost all = self@.definitions;
        assert(all.take(i as int) =~= all);
        while i > 0
            invariant
                i <= self.definitions.len(),
                all == self@.definitions,
                last_place(all, name@) == last_place(all.take(i as int), name@),
            decreases i,
        {
            assert(all.take(i as int).drop_last() =~= all.take(i - 1));
            if same_text(self.definitions[i - 1].0.as_str(), name) {
                return Some(i - 1);
            }
            i -= 1;
        }
        None
    }

    /// The place of the texture file `file` in the list of texture files.
    pub fn find_map(&self, file: &str) -> (place: Option<usize>)
        ensures
            place matches Some(place) ==> first_place(self@.maps, file@) == Some(place as int),
            place is None ==> first_place(self@.maps, file@) is None,
    {
        let mut i: usize = 0;
        let ghost all = self@.maps;
        while i < self.maps.len()
            invariant
                i <= self.maps.len(),
                all == self@.maps,
                first_place(all.take(i as int), file@) is None,
            decreases self.maps.len() - i,
        {
            assert(all.take(i + 1).drop_last() =~= all.take(i as int));
            if same_text(self.maps[i].as_str(), file) {
                proof {
                    lemma_first_place_prefix(all, file@, i + 1);
                }
                return Some(i);
            }
            i += 1;
        }
        assert(all.take(i as int) =~= all);
        None
    }
}

/// A place found in the beginning of a list is the place found in the whole
/// list.
pub proof fn lemma_first_place_prefix(names: Seq<Seq<char>>, name: Seq<char>, k: int)
    requires
        0 <= k <= names.len(),
        first_place(names.take(k), name) is Some,
    ensures
        first_place(names, name) == first_place(names.take(k), name),
    decreases names.len() - k,
{
    if k == names.len() {
        assert(names.take(k) =~= names);
    } else {
        assert(names.take(k + 1).drop_last() =~= names.take(k));
        lemma_first_place_prefix(names, name, k + 1);
    }
}

/// What the caller has to do with a line once it has been read: nothing,
/// or load the texture file that now stands at place `id` of the list of
/// texture files.
#[derive(Debug, Clone, PartialEq, Eq)]
pub enum MtlAction {
    Nothing,
    LoadMap { file: String, id: usize },
}

/// What an `MtlAction` holds, with each text as a sequence of characters.
pub enum MtlActionView {
    Nothing,
    LoadMap { file: Seq<char>, id: usize },
}

impl View for MtlAction {
    type V = MtlActionView;

    open spec fn view(&self) -> MtlActionView {
        match *self {
            MtlAction::Nothing => MtlActionView::Nothing,
            MtlAction::LoadMap { file, id } => MtlActionView::LoadMap { file: file@, id },
        }
    }
}

/// What has been gathered from the lines of an MTL file read so far: the
/// materials that are closed, the texture files, and the material that is
/// open, with its name once a `newmtl` line has given one.
#[derive(Debug, Clone, PartialEq, Eq)]
pub struct MtlReader {
    pub mtl: WavefrontMtl,
    pub name: Option<String>,
    pub definition: MtlDefinition,
}

/// What an `MtlReader` holds, as sequences.
pub struct MtlReaderView {
    pub mtl: WavefrontMtlView,
    pub name: Option<Seq<char>>,
    pub definition: MtlDefinitionView,
}

impl MtlReaderView {
    /// Whether each texture that a material names, the open one too, is a
    /// place of the list of texture files.
    pub open spec fn well_formed(self) -> bool {
        &&& self.mtl.well_formed()
        &&& self.definition.map matches Some(map) ==> map < self.mtl.maps.len()
    }
}

impl View for MtlReader {
    type V = MtlReaderView;

    open spec fn view(&self) -> MtlReaderView {
        MtlReaderView { mtl: self.mtl@, name: name_view(self.name), definition: self.definition@ }
    }
}

/// The materials once the open one is closed: where it has a name it is put
/// last under that name, and where it has none it is dropped.
pub open spec fn closed_definitions(state: MtlReaderView) -> Seq<(Seq<char>, MtlDefinitionView)> {
    match state.name {
        Some(name) => state.mtl.definitions.push((name, state.definition)),
        None => state.mtl.definitions,
    }
}

/// What one line does to the state of the reader, and what it leaves for the
/// caller to do. A line is known by its first word. `newmtl` and `map_Kd`
/// need a name and `Kd` three numbers; a line that falls short of that has no
/// result. Any other line, an empty one too, changes nothing and asks for
/// nothing.
///
/// `newmtl` closes the open material and opens one under the new name. What
/// was said before the first `newmtl` line stays with the material that this
/// line opens. `Kd` gives the open material its colour. `map_Kd` gives it
/// the texture of the file named: the place at which the file stands in the
/// list already, or else a new place at the end, which the caller is asked
/// to fill.
pub open spec fn mtl_line(
    state: MtlReaderView,
    line: Seq<char>,
) -> Option<(MtlReaderView, MtlActionView)> {
    let w = words(line);
    if w.len() == 0 {
        Some((state, MtlActionView::Nothing))
    } else if w[0] == "newmtl"@ {
        if w.len() >= 2 {
            Some(
                (
                    MtlReaderView {
                        mtl: WavefrontMtlView {
                            definitions: closed_definitions(state),
                            maps: state.mtl.maps,
                        },
                        name: Some(w[1]),
                        definition: if state.name is Some {
                            MtlDefinitionView { diffusion: None, map: None }
                        } else {
                            state.definition
                        },
                    },
                    MtlActionView::Nothing,
                ),
            )
        } else {
            None
        }
    } else if w[0] == "Kd"@ {
        if are_numbers(w.skip(1), 3) {
            Some(
                (
                    MtlReaderView {
                        mtl: state.mtl,
                        name: state.name,
                        definition: MtlDefinitionView {
                            diffusion: Some((w[1], w[2], w[3])),
                            map: state.definition.map,
                        },
                    },
                    MtlActionView::Nothing,
                ),
            )
        } else {
            None
        }
    } else if w[0] == "map_Kd"@ {
        if w.len() >= 2 {
            match first_place(state.mtl.maps, w[1]) {
                Some(place) => Some(
                    (
                        MtlReaderView {
                            mtl: state.mtl,
                            name: state.name,
                            definition: MtlDefinitionView {
                                diffusion: state.definition.diffusion,
                                map: Some(place as usize),
                            },
                        },
                        MtlActionView::Nothing,
                    ),
                ),
                None => Some(
                    (
                        MtlReaderView {
                            mtl: WavefrontMtlView {
                                definitions: state.mtl.definitions,
                                maps: state.mtl.maps.push(w[1]),
                            },
                            name: state.name,
                            definition: MtlDefinitionView {
                                diffusion: state.definition.diffusion,
                                map: Some(state.mtl.maps.len() as usize),
                            },
                        },
                        MtlActionView::LoadMap { file: w[1], id: state.mtl.maps.len() as usize },
                    ),
                ),
            }
        } else {
            None
        }
    } else {
        Some((state, MtlActionView::Nothing))
    }
}

/// A line leaves a well-formed reader well formed, as long as the list of
/// texture files is one that a machine can hold.
pub proof fn lemma_mtl_line_well_formed(state: MtlReaderView, line: Seq<char>)
    requires
        state.well_formed(),
        state.mtl.maps.len() <= usize::MAX,
        mtl_line(state, line) is Some,
    ensures
        mtl_line(state, line).unwrap().0.well_formed(),
{
    let next = mtl_line(state, line).unwrap().0;
    assert forall|i: int| 0 <= i < next.mtl.definitions.len() implies (
    #[trigger] next.mtl.definitions[i].1.map matches Some(map) ==> map
        < next.mtl.maps.len()) by {
        if i < state.mtl.definitions.len() {
            assert(next.mtl.definitions[i] == state.mtl.definitions[i]);
        }
    }
    let w = words(line);
    if w.len() >= 2 && w[0] == "map_Kd"@ {
        lemma_first_place(state.mtl.maps, w[1]);
    }
}

/// Closing the open material of a well-formed reader leaves well-formed
/// materials.
pub proof fn lemma_closed_well_formed(state: MtlReaderView)
    requires
        state.well_formed(),
    ensures
        (WavefrontMtlView {
            definitions: closed_definitions(state),
            maps: state.mtl.maps,
        }).well_formed(),
{
    let closed = closed_definitions(state);
    assert forall|i: int| 0 <= i < closed.len() implies (#[trigger] closed[i].1.map matches Some(
        map,
    ) ==> map < state.mtl.maps.len()) by {
        if i < state.mtl.definitions.len() {
            assert(closed[i] == state.mtl.definitions[i]);
        }
    }
}

impl MtlReader {
    /// A reader that has seen no line.
    pub fn new() -> (reader: MtlReader)
        ensures
            reader@ == (MtlReaderView {
                mtl: WavefrontMtlView { definitions: Seq::empty(), maps: Seq::empty() },
                name: None,
                definition: MtlDefinitionView { diffusion: None, map: None },
            }),
            reader@.well_formed(),
    {
        MtlReader { mtl: WavefrontMtl::new(), name: None, definition: MtlDefinition::new() }
    }

    /// Reads the next line of the file. A line that cannot be read leaves the
    /// reader as it was.
    pub fn read_line(&mut self, line: &str) -> (result: Result<MtlAction, FileError>)
        ensures
            result matches Ok(action) ==> mtl_line(old(self)@, line@) == Some(
                (final(self)@, action@),
            ),
            result is Err ==> mtl_line(old(self)@, line@) is None && *final(self) == *old(self),
            old(self)@.well_formed() ==> final(self)@.well_formed(),
    {
        proof {
            if self@.well_formed() && mtl_line(self@, line@) is Some {
                assert(self@.mtl.maps.len() == self.mtl.maps.len());
                lemma_mtl_line_well_formed(self@, line@);
            }
        }
        let mut words = Words::new(line);
        let ghost w = words@;
        let first = match words.next() {
            Some(first) => first,
            None => {
                return Ok(MtlAction::Nothing);
            },
        };
        assert(words@ =~= w.skip(1));
        if same_text(first, "newmtl") {
            let next = match expect_string(&mut words) {
                Ok(next) => next,
                Err(error) => {
                    return Err(error);
                },
            };
            let mut name = Some(next);
            core::mem::swap(&mut self.name, &mut name);
            if let Some(name) = name {
                let mut definition = MtlDefinition::new();
                core::mem::swap(&mut self.definition, &mut definition);
                self.mtl.definitions.push((name, definition));
            }
            assert(self@.mtl.definitions =~= closed_definitions(old(self)@));
            Ok(MtlAction::Nothing)
        } else if same_text(first, "Kd") {
            let (r, g, b) = match expect_xyz(&mut words) {
                Ok(colour) => colour,
                Err(error) => {
                    return Err(error);
                },
            };
            self.definition.diffusion = Some((r, g, b));
            Ok(MtlAction::Nothing)
        } else if same_text(first, "map_Kd") {
            let file = match expect_string(&mut words) {
                Ok(file) => file,
                Err(error) => {
                    return Err(error);
                },
            };
            match self.mtl.find_map(file.as_str()) {
                Some(place) => {
                    self.definition.map = Some(place);
                    Ok(MtlAction::Nothing)
                },
                None => {
                    let id: usize = self.mtl.maps.len();
                    self.mtl.maps.push(file.clone());
                    self.definition.map = Some(id);
                    assert(self@.mtl.maps =~= old(self)@.mtl.maps.push(file@));
                    Ok(MtlAction::LoadMap { file, id })
                },
            }
        } else {
            Ok(MtlAction::Nothing)
        }
    }

    /// Closes the open material at the end of the file and hands out what
    /// was read.
    pub fn finish(self) -> (mtl: WavefrontMtl)
        ensures
            mtl@ == (WavefrontMtlView {
                definitions: closed_definitions(self@),
                maps: self@.mtl.maps,
            }),
            self@.well_formed() ==> mtl@.well_formed(),
    {
        proof {
            if self@.well_formed() {
                lemma_closed_well_formed(self@);
            }
        }
        let MtlReader { mtl, name, definition } = self;
        let mut mtl = mtl;
        if let Some(name) = name {
            mtl.definitions.push((name, definition));
        }
        assert(mtl@.definitions =~= closed_definitions(self@));
        mtl
    }
}

} // verus!
