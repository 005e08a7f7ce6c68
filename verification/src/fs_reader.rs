//! The reader of a file-system source: its settings, and the choice of
//! the columns that a read asks for.

use vstd::prelude::*;

verus! {

/// Identifies a column of a source.
pub type ColumnId = i32;

/// The property that names the connector of a source.
pub fn upstream_source_key() -> (r: String)
    ensures
        r@ == "connector"@,
{
    "connector".to_owned()
}

/// Why a source reader could not be made or used.
#[derive(Debug, PartialEq, Eq)]
pub enum ConnectorError {
    /// The properties do not name a connector.
    MissingConnector,
    /// The source has no column with this id.
    ColumnNotFound(ColumnId),
}

/// A column of a source.
#[derive(Debug, PartialEq, Eq)]
pub struct SourceColumnDesc {
    pub name: String,
    pub column_id: ColumnId,
    pub is_pk: bool,
    pub is_hidden_addition_col: bool,
}

impl Clone for SourceColumnDesc {
    fn clone(&self) -> (r: Self)
        ensures
            r == *self,
    {
        SourceColumnDesc {
            name: self.name.clone(),
            column_id: self.column_id,
            is_pk: self.is_pk,
            is_hidden_addition_col: self.is_hidden_addition_col,
        }
    }
}

/// How the payload of a source is encoded.
#[derive(Debug, PartialEq, Eq)]
pub struct SpecificParserConfig {
    pub encoding: String,
    pub protocol: String,
}

/// The properties of a source: names with their values, no name twice.
#[derive(Debug, PartialEq, Eq)]
pub struct Properties {
    entries: Vec<(String, String)>,
}

impl View for Properties {
    type V = Map<Seq<char>, Seq<char>>;

    closed spec fn view(&self) -> Map<Seq<char>, Seq<char>> {
        Map::new(
            |k: Seq<char>| exists|i: int| 0 <= i < self.entries.len() && (#[trigger] self.entries[i]).0@ == k,
            |k: Seq<char>|
                self.entries[choose|i: int|
                    0 <= i < self.entries.len() && (#[trigger] self.entries[i]).0@ == k].1@,
        )
    }
}

impl Properties {
    /// No name occurs twice.
    pub closed spec fn wf(&self) -> bool {
        forall|i: int, j: int|
            0 <= i < self.entries.len() && 0 <= j < self.entries.len() && (
            #[trigger] self.entries[i]).0@ == (#[trigger] self.entries[j]).0@ ==> i == j
    }

    /// No properties.
    pub fn new() -> (r: Self)
        ensures
            r.wf(),
            r@ == Map::<Seq<char>, Seq<char>>::empty(),
    {
        let r = Properties { entries: Vec::new() };
        proof {
            assert(r@ =~= Map::<Seq<char>, Seq<char>>::empty());
        }
        r
    }

    /// The index of the entry `key`, if there is one.
    fn position(&self, key: &String) -> (r: Option<usize>)
        requires
            self.wf(),
        ensures
            match r {
                Some(i) => i < self.entries.len() && self.entries[i as int].0@ == key@
                    && self@.contains_key(key@) && self@[key@] == self.entries[i as int].1@,
                None => !self@.contains_key(key@),
            },
    {
        let mut i: usize = 0;
        while i < self.entries.len()
            invariant
                i <= self.entries.len(),
                self.wf(),
                forall|j: int| 0 <= j < i ==> (#[trigger] self.entries[j]).0@ != key@,
            decreases self.entries.len() - i,
        {
            if self.entries[i].0 == *key {
                proof {
                    assert(self.entries[i as int].0@ == key@);
                    assert(self@.contains_key(key@));
                    let j = choose|j: int|
                        0 <= j < self.entries.len() && (#[trigger] self.entries[j]).0@ == key@;
                    assert(self.entries[j].0@ == self.entries[i as int].0@);
                    assert(j == i);
                }
                return Some(i);
            }
            i = i + 1;
        }
        None
    }

    /// The value of property `key`, if it is set.
    pub fn get(&self, key: &String) -> (r: Option<&String>)
        requires
            self.wf(),
        ensures
            match r {
                Some(v) => self@.contains_key(key@) && self@[key@] == v@,
                None => !self@.contains_key(key@),
            },
    {
        match self.position(key) {
            Some(i) => Some(&self.entries[i].1),
            None => None,
        }
    }

    /// Sets property `key` to `value`; returns the value that it had.
    pub fn insert(&mut self, key: String, value: String) -> (r: Option<String>)
        requires
            old(self).wf(),
        ensures
            final(self).wf(),
            final(self)@ == old(self)@.insert(key@, value@),
            match r {
                Some(v) => old(self)@.contains_key(key@) && old(self)@[key@] == v@,
                None => !old(self)@.contains_key(key@),
            },
    {
        let ghost before = self@;
        let ghost entries = self.entries@;
        match self.position(&key) {
            Some(i) => {
                let mut entry = (key, value);
                std::mem::swap(&mut self.entries[i], &mut entry);
                proof {
                    assert forall|k: Seq<char>| self@.contains_key(k) == before.insert(
                        key@,
                        value@,
                    ).contains_key(k) by {
                        if self@.contains_key(k) {
                            let j = choose|j: int|
                                0 <= j < self.entries.len() && (#[trigger] self.entries[j]).0@ == k;
                            assert(entries[j].0@ == k);
                        }
                        if before.contains_key(k) {
                            let j = choose|j: int|
                                0 <= j < entries.len() && (#[trigger] entries[j]).0@ == k;
                            assert(self.entries[j].0@ == k);
                        }
                        if k == key@ {
                            assert(self.entries[i as int].0@ == k);
                        }
                    }
                    assert forall|k: Seq<char>| self@.contains_key(k) implies self@[k]
                        == before.insert(key@, value@)[k] by {
                        let j = choose|j: int|
                            0 <= j < self.entries.len() && (#[trigger] self.entries[j]).0@ == k;
                        if k != key@ {
                            let j0 = choose|j0: int|
                                0 <= j0 < entries.len() && (#[trigger] entries[j0]).0@ == k;
                            assert(entries[j].0@ == k);
                            assert(j == j0);
                        } else {
                            assert(self.entries[i as int].0@ == k);
                            assert(j == i);
                        }
                    }
                    assert(self@ =~= before.insert(key@, value@));
                }
                Some(entry.1)
            },
            None => {
                self.entries.push((key, value));
                proof {
                    let n = entries.len() as int;
                    assert forall|k: Seq<char>| self@.contains_key(k) == before.insert(
                        key@,
                        value@,
                    ).contains_key(k) by {
                        if self@.contains_key(k) {
                            let j = choose|j: int|
                                0 <= j < self.entries.len() && (#[trigger] self.entries[j]).0@ == k;
                            if j < n {
                                assert(entries[j].0@ == k);
                            }
                        }
                        if before.contains_key(k) {
                            let j = choose|j: int|
                                0 <= j < entries.len() && (#[trigger] entries[j]).0@ == k;
                            assert(self.entries[j].0@ == k);
                        }
                        if k == key@ {
                            assert(self.entries[n].0@ == k);
                        }
                    }
                    assert forall|k: Seq<char>| self@.contains_key(k) implies self@[k]
                        == before.insert(key@, value@)[k] by {
                        let j = choose|j: int|
                            0 <= j < self.entries.len() && (#[trigger] self.entries[j]).0@ == k;
                        if k != key@ {
                            let j0 = choose|j0: int|
                                0 <= j0 < entries.len() && (#[trigger] entries[j0]).0@ == k;
                            assert(self.entries[j0].0@ == k);
                            assert(j == j0);
                        } else {
                            assert(self.entries[n].0@ == k);
                            assert(j == n);
                        }
                    }
                    assert(self@ =~= before.insert(key@, value@));
                }
                None
            },
        }
    }

    /// Takes property `key` out; returns the value that it had.
    pub fn remove(&mut self, key: &String) -> (r: Option<String>)
        requires
            old(self).wf(),
        ensures
            final(self).wf(),
            final(self)@ == old(self)@.remove(key@),
            match r {
                Some(v) => old(self)@.contains_key(key@) && old(self)@[key@] == v@,
                None => !old(self)@.contains_key(key@),
            },
    {
        let ghost before = self@;
        let ghost entries = self.entries@;
        match self.position(key) {
            Some(i) => {
                let entry = self.entries.remove(i);
                proof {
                    assert forall|k: Seq<char>| self@.contains_key(k) == before.remove(
                        key@,
                    ).contains_key(k) by {
                        if self@.contains_key(k) {
                            let j = choose|j: int|
                                0 <= j < self.entries.len() && (#[trigger] self.entries[j]).0@ == k;
                            if j < i {
                                assert(entries[j].0@ == k);
                            } else {
                                assert(entries[j + 1].0@ == k);
                            }
                        }
                        if before.contains_key(k) && k != key@ {
                            let j = choose|j: int|
                                0 <= j < entries.len() && (#[trigger] entries[j]).0@ == k;
                            if j < i {
                                assert(self.entries[j].0@ == k);
                            } else {
                                assert(self.entries[j - 1].0@ == k);
                            }
                        }
                    }
                    assert forall|k: Seq<char>| self@.contains_key(k) implies self@[k]
                        == before.remove(key@)[k] by {
                        let j = choose|j: int|
                            0 <= j < self.entries.len() && (#[trigger] self.entries[j]).0@ == k;
                        let j0 = choose|j0: int|
                            0 <= j0 < entries.len() && (#[trigger] entries[j0]).0@ == k;
                        if j < i {
                            assert(entries[j].0@ == k);
                            assert(j0 == j);
                        } else {
                            assert(entries[j + 1].0@ == k);
                            assert(j0 == j + 1);
                        }
                    }
                    assert(self@ =~= before.remove(key@));
                }
                Some(entry.1)
            },
            None => {
                proof {
                    assert(self@ =~= before.remove(key@));
                }
                None
            },
        }
    }
}

/// The settings of the connector of a source.
#[derive(Debug, PartialEq, Eq)]
pub struct ConnectorProperties {
    /// The name of the connector.
    pub connector: String,
    /// The properties other than the connector's name.
    pub properties: Properties,
}

impl ConnectorProperties {
    /// The settings that `with_properties` make: the connector that they
    /// name, and the other properties.
    pub fn extract(with_properties: Properties) -> (r: Result<Self, ConnectorError>)
        requires
            with_properties.wf(),
        ensures
            match r {
                Ok(config) => with_properties@.contains_key("connector"@) && config.connector@
                    == with_properties@["connector"@] && config.properties.wf()
                    && config.properties@ == with_properties@.remove("connector"@),
                Err(e) => !with_properties@.contains_key("connector"@) && e
                    == ConnectorError::MissingConnector,
            },
    {
        let mut with_properties = with_properties;
        let key = upstream_source_key();
        match with_properties.remove(&key) {
            Some(connector) => Ok(ConnectorProperties { connector, properties: with_properties }),
            None => Err(ConnectorError::MissingConnector),
        }
    }
}

/// The index of the first of `columns` with the id `id`; their number
/// where there is none.
pub open spec fn column_position(columns: Seq<SourceColumnDesc>, id: ColumnId) -> int
    decreases columns.len(),
{
    if columns.len() == 0 || columns[0].column_id == id {
        0
    } else {
        1 + column_position(columns.drop_first(), id)
    }
}

/// The index of the first of `column_ids` that no column has; their
/// number where every id is that of a column.
pub open spec fn first_missing(columns: Seq<SourceColumnDesc>, column_ids: Seq<ColumnId>) -> int
    decreases column_ids.len(),
{
    if column_ids.len() == 0 || column_position(columns, column_ids[0]) >= columns.len() {
        0
    } else {
        1 + first_missing(columns, column_ids.drop_first())
    }
}

/// Reads a source that lies in a file system.
#[derive(Debug, PartialEq, Eq)]
pub struct FsSourceReader {
    pub config: ConnectorProperties,
    pub columns: Vec<SourceColumnDesc>,
    pub properties: Properties,
    pub parser_config: SpecificParserConfig,
}

impl FsSourceReader {
    /// A reader of the source that `properties` describe.
    pub fn new(
        properties: Properties,
        columns: Vec<SourceColumnDesc>,
        parser_config: SpecificParserConfig,
    ) -> (r: Result<Self, ConnectorError>)
        requires
            properties.wf(),
        ensures
            match r {
                Ok(reader) => properties@.contains_key("connector"@) && reader.config.connector@
                    == properties@["connector"@] && reader.config.properties@
                    == properties@.remove("connector"@) && reader.columns == columns
                    && reader.properties@ == properties@ && reader.parser_config == parser_config,
                Err(e) => !properties@.contains_key("connector"@) && e
                    == ConnectorError::MissingConnector,
            },
    {
        // Store the connector node address to properties for later use.
        let config = match ConnectorProperties::extract(properties.copy()) {
            Ok(config) => config,
            Err(e) => {
                return Err(e);
            },
        };
        Ok(Self { config, columns, properties, parser_config })
    }

    /// The columns with the ids `column_ids`, in the order of the ids.
    pub fn get_target_columns(&self, column_ids: Vec<ColumnId>) -> (r: Result<
        Vec<SourceColumnDesc>,
        ConnectorError,
    >)
        ensures
            match r {
                Ok(target) => first_missing(self.columns@, column_ids@) == column_ids.len()
                    && target.len() == column_ids.len() && forall|k: int|
                    0 <= k < column_ids.len() ==> #[trigger] target[k] == self.columns[column_position(
                        self.columns@,
                        column_ids[k],
                    )],
                Err(e) => first_missing(self.columns@, column_ids@) < column_ids.len() && e
                    == ConnectorError::ColumnNotFound(
                    column_ids[first_missing(self.columns@, column_ids@)],
                ),
            },
    {
        let mut target: Vec<SourceColumnDesc> = Vec::new();
        let mut k: usize = 0;
        proof {
            assert(column_ids@.skip(0) =~= column_ids@);
        }
        while k < column_ids.len()
            invariant
                k <= column_ids.len(),
                target.len() == k,
                first_missing(self.columns@, column_ids@) == k + first_missing(
                    self.columns@,
                    column_ids@.skip(k as int),
                ),
                forall|j: int|
                    0 <= j < k ==> #[trigger] target[j] == self.columns[column_position(
                        self.columns@,
                        column_ids[j],
                    )],
            decreases column_ids.len() - k,
        {
            let id = column_ids[k];
            let mut i: usize = 0;
            proof {
                assert(self.columns@.skip(0) =~= self.columns@);
                assert(column_ids@.skip(k as int)[0] == id);
                assert(column_ids@.skip(k as int).drop_first() =~= column_ids@.skip(k + 1));
            }
            while i < self.columns.len() && self.columns[i].column_id != id
                invariant
                    i <= self.columns.len(),
                    column_position(self.columns@, id) == i + column_position(
                        self.columns@.skip(i as int),
                        id,
                    ),
                decreases self.columns.len() - i,
            {
                proof {
                    assert(self.columns@.skip(i as int)[0] == self.columns@[i as int]);
                    assert(self.columns@.skip(i as int).drop_first() =~= self.columns@.skip(i + 1));
                }
                i = i + 1;
            }
            proof {
                if i < self.columns.len() {
                    assert(self.columns@.skip(i as int)[0] == self.columns@[i as int]);
                }
            }
            if i >= self.columns.len() {
                return Err(ConnectorError::ColumnNotFound(id));
            }
            target.push(self.columns[i].clone());
            k = k + 1;
        }
        proof {
            assert(column_ids@.skip(column_ids.len() as int) =~= Seq::empty());
        }
        Ok(target)
    }
}

impl Properties {
    /// A copy of the properties.
    pub fn copy(&self) -> (r: Self)
        requires
            self.wf(),
        ensures
            r.wf(),
            r@ == self@,
    {
        let mut entries: Vec<(String, String)> = Vec::new();
        let mut i: usize = 0;
        while i < self.entries.len()
            invariant
                i <= self.entries.len(),
                entries.len() == i,
                forall|j: int| 0 <= j < i ==> #[trigger] entries[j] == self.entries[j],
            decreases self.entries.len() - i,
        {
            entries.push((self.entries[i].0.clone(), self.entries[i].1.clone()));
            i = i + 1;
        }
        let r = Properties { entries };
        proof {
            assert(r.entries@ =~= self.entries@);
        }
        r
    }
}

} // verus!
