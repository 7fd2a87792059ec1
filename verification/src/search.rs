//! The search catalog's records: index definitions, their generations, and the
//! readiness that replicas report.
//!
//! A definition's content belongs to the search engine. What the catalog reads
//! of it is its fingerprint and, where the engine refuses it, the reason.
use crate::error::{Error, ErrorView};
use crate::text::{decimal, prefixed, to_decimal};
use crate::types::{GroupId, LogId, NodeId};
use vstd::prelude::*;
use vstd::string::StringSliceAdditionalSpecFns;
use vstd::utf8::encode_utf8;

verus! {

/// The most indexes the catalog may hold.
pub const SEARCH_MAX_INDEXES: usize = 256;

/// The most generations of one index that may wait for their removal.
pub const SEARCH_MAX_RETIRING_GENERATIONS: usize = 16;

/// The longest index name, in bytes.
pub const SEARCH_MAX_NAME_BYTES: usize = 255;

/// The engine revision new generations are built for.
pub const SEARCH_ENGINE_REVISION: u32 = 2;

/// The fingerprint of a definition.
pub type DefinitionHash = [u8; 32];

/// An index definition as the search engine reports it.
#[derive(Debug, Clone, PartialEq, Eq)]
pub struct SearchIndexDefinition {
    pub source: Vec<u8>,
    pub hash: DefinitionHash,
    /// Why the engine refuses the definition, if it does.
    pub defect: Option<String>,
}

#[verifier::ext_equal]
pub struct DefinitionView {
    pub source: Seq<u8>,
    pub hash: DefinitionHash,
    pub defect: Option<Seq<char>>,
}

impl View for SearchIndexDefinition {
    type V = DefinitionView;

    open spec fn view(&self) -> DefinitionView {
        DefinitionView {
            source: self.source@,
            hash: self.hash,
            defect: match self.defect {
                Some(text) => Some(text@),
                None => None,
            },
        }
    }
}

impl SearchIndexDefinition {
    pub fn duplicate(&self) -> (d: SearchIndexDefinition)
        ensures
            d@ == self@,
    {
        SearchIndexDefinition {
            source: self.source.clone(),
            hash: self.hash,
            defect: match &self.defect {
                Some(text) => Some(text.clone()),
                None => None,
            },
        }
    }
}

/// One built or building version of an index.
#[derive(Debug, Clone, PartialEq, Eq)]
pub struct SearchIndexGeneration {
    pub id: u64,
    pub engine_revision: u32,
    pub definition: SearchIndexDefinition,
    pub definition_hash: DefinitionHash,
}

#[verifier::ext_equal]
pub struct GenerationView {
    pub id: u64,
    pub engine_revision: u32,
    pub definition: DefinitionView,
    pub definition_hash: DefinitionHash,
}

impl View for SearchIndexGeneration {
    type V = GenerationView;

    open spec fn view(&self) -> GenerationView {
        GenerationView {
            id: self.id,
            engine_revision: self.engine_revision,
            definition: self.definition@,
            definition_hash: self.definition_hash,
        }
    }
}

/// The generation that `definition` gives at log position `id`, or the
/// engine's reason to refuse it.
pub open spec fn generation_of(id: u64, engine_revision: u32, definition: DefinitionView) -> Result<
    GenerationView,
    ErrorView,
> {
    match definition.defect {
        Some(reason) => Err(ErrorView::Search(reason)),
        None => Ok(
            GenerationView { id, engine_revision, definition, definition_hash: definition.hash },
        ),
    }
}

impl SearchIndexGeneration {
    pub fn with_revision(
        id: u64,
        engine_revision: u32,
        definition: SearchIndexDefinition,
    ) -> (r: Result<SearchIndexGeneration, Error>)
        ensures
            match r {
                Ok(g) => generation_of(id, engine_revision, definition@) == Ok::<
                    GenerationView,
                    ErrorView,
                >(g@),
                Err(e) => generation_of(id, engine_revision, definition@) == Err::<
                    GenerationView,
                    ErrorView,
                >(e@),
            },
    {
        match &definition.defect {
            Some(reason) => Err(Error::Search(reason.clone())),
            None => {
                let definition_hash = definition.hash;
                Ok(SearchIndexGeneration { id, engine_revision, definition, definition_hash })
            },
        }
    }

    pub fn duplicate(&self) -> (g: SearchIndexGeneration)
        ensures
            g@ == self@,
    {
        SearchIndexGeneration {
            id: self.id,
            engine_revision: self.engine_revision,
            definition: self.definition.duplicate(),
            definition_hash: self.definition_hash,
        }
    }
}

/// A replica's claim to have built a generation of an index for its group.
#[derive(Debug, Clone, Copy, PartialEq, Eq)]
pub struct SearchIndexReady {
    pub generation: u64,
    pub definition_hash: DefinitionHash,
    pub engine_revision: u32,
    pub group: GroupId,
    pub projection_epoch: u64,
    pub voters_log_id: LogId,
    pub node_id: NodeId,
    pub source_log_id: LogId,
}

/// Whether two fingerprints are the same.
pub fn same_hash(a: &DefinitionHash, b: &DefinitionHash) -> (same: bool)
    ensures
        same == (*a == *b),
{
    let mut i: usize = 0;
    while i < 32
        invariant
            i <= 32,
            a@.len() == 32,
            b@.len() == 32,
            forall|k: int| 0 <= k < i ==> a@[k] == b@[k],
        decreases 32 - i,
    {
        if a[i] != b[i] {
            return false;
        }
        i += 1;
    }
    assert(*a =~= *b);
    true
}

impl SearchIndexReady {
    /// Whether two claims are the same.
    pub fn same(&self, other: &SearchIndexReady) -> (same: bool)
        ensures
            same == (*self == *other),
    {
        self.generation == other.generation && same_hash(
            &self.definition_hash,
            &other.definition_hash,
        ) && self.engine_revision == other.engine_revision && self.group == other.group
            && self.projection_epoch == other.projection_epoch && self.voters_log_id
            == other.voters_log_id && self.node_id == other.node_id && self.source_log_id
            == other.source_log_id
    }
}

/// A catalog entry: the generations of one named index.
#[derive(Debug, Clone, PartialEq, Eq)]
pub struct SearchIndexRecord {
    pub name: String,
    pub active: Option<SearchIndexGeneration>,
    pub building: Option<SearchIndexGeneration>,
    pub retiring: Vec<u64>,
}

#[verifier::ext_equal]
pub struct RecordView {
    pub name: Seq<char>,
    pub active: Option<GenerationView>,
    pub building: Option<GenerationView>,
    pub retiring: Seq<u64>,
}

/// The contents of catalog entries.
pub open spec fn record_views(records: Seq<SearchIndexRecord>) -> Seq<RecordView> {
    records.map_values(|r: SearchIndexRecord| r@)
}

impl View for SearchIndexRecord {
    type V = RecordView;

    open spec fn view(&self) -> RecordView {
        RecordView {
            name: self.name@,
            active: match self.active {
                Some(g) => Some(g@),
                None => None,
            },
            building: match self.building {
                Some(g) => Some(g@),
                None => None,
            },
            retiring: self.retiring@,
        }
    }
}

/// The error of an index name, if it has one: a name holds between one and
/// [`SEARCH_MAX_NAME_BYTES`] bytes.
pub open spec fn name_defect(name: Seq<char>) -> Option<ErrorView> {
    if name.len() == 0 {
        Some(ErrorView::Search("index name must be non-empty"@))
    } else if encode_utf8(name).len() > SEARCH_MAX_NAME_BYTES {
        Some(
            ErrorView::Search(
                "index name must be <= "@ + decimal(SEARCH_MAX_NAME_BYTES as nat) + " bytes"@,
            ),
        )
    } else {
        None
    }
}

impl RecordView {
    /// The error of a record, if it has one: a bad name, or more retiring
    /// generations than the catalog keeps.
    pub open spec fn defect(self) -> Option<ErrorView> {
        match name_defect(self.name) {
            Some(e) => Some(e),
            None => if self.retiring.len() > SEARCH_MAX_RETIRING_GENERATIONS {
                Some(ErrorView::Search("too many retiring search generations"@))
            } else {
                None
            },
        }
    }
}

/// The length of a text in bytes, or one more than `limit` where it is longer.
fn text_bytes(text: &String) -> (n: usize)
    ensures
        n == encode_utf8(text@).len(),
{
    let s = text.as_str();
    let b = s.as_bytes();
    b.len()
}

/// Check an index name.
pub fn validate_index_name(name: &String) -> (r: Result<(), Error>)
    ensures
        match r {
            Ok(_) => name_defect(name@) is None,
            Err(e) => name_defect(name@) == Some(e@),
        },
{
    if name.as_str().is_empty() {
        return Err(Error::Search("index name must be non-empty".to_owned()));
    }
    if text_bytes(name) > SEARCH_MAX_NAME_BYTES {
        let mut text = prefixed(
            "index name must be <= ",
            to_decimal(SEARCH_MAX_NAME_BYTES as u128).as_str(),
        );
        text.append(" bytes");
        return Err(Error::Search(text));
    }
    Ok(())
}

impl SearchIndexRecord {
    /// Check a record.
    pub fn validate(&self) -> (r: Result<(), Error>)
        ensures
            match r {
                Ok(_) => self@.defect() is None,
                Err(e) => self@.defect() == Some(e@),
            },
    {
        match validate_index_name(&self.name) {
            Ok(_) => {},
            Err(e) => {
                return Err(e);
            },
        }
        if self.retiring.len() > SEARCH_MAX_RETIRING_GENERATIONS {
            return Err(Error::Search("too many retiring search generations".to_owned()));
        }
        Ok(())
    }

    pub fn duplicate(&self) -> (r: SearchIndexRecord)
        ensures
            r@ == self@,
    {
        SearchIndexRecord {
            name: self.name.clone(),
            active: match &self.active {
                Some(g) => Some(g.duplicate()),
                None => None,
            },
            building: match &self.building {
                Some(g) => Some(g.duplicate()),
                None => None,
            },
            retiring: self.retiring.clone(),
        }
    }
}

/// A name is sound if and only if it is not empty and its bytes are not too many; a
/// record if and only if its name is and not too many of its generations wait; a
/// definition gives a generation if and only if the engine accepts it.
pub proof fn law_records_are_sound(
    record: RecordView,
    id: u64,
    engine_revision: u32,
    definition: DefinitionView,
)
    ensures
        name_defect(record.name) is None <==> record.name.len() > 0 && encode_utf8(
            record.name,
        ).len() <= SEARCH_MAX_NAME_BYTES,
        record.defect() is None <==> name_defect(record.name) is None && record.retiring.len()
            <= SEARCH_MAX_RETIRING_GENERATIONS,
        generation_of(id, engine_revision, definition) is Ok <==> definition.defect is None,
        generation_of(id, engine_revision, definition) matches Ok(g) ==> g.id == id
            && g.engine_revision == engine_revision && g.definition == definition
            && g.definition_hash == definition.hash,
{
}

} // verus!
