//! Databases and tables as they are kept.

use vstd::arithmetic::power::pow;
use vstd::prelude::*;
use vstd::utf8::encode_utf8;

use crate::text::concat;
use crate::text::decimal;
use crate::text::decimal_text;
use crate::text::texts;
use crate::vec_map::entries_map;
use crate::vec_map::MapKey;
use crate::vec_map::VecMap;

verus! {

/// Value with a corresponding sequence number
pub type SeqValue = (u64, Vec<u8>);

pub type MetaVersion = u64;

pub type MetaId = u64;

pub open spec fn pairs_view(v: Seq<(String, u64)>) -> Seq<(Seq<char>, u64)> {
    v.map_values(|p: (String, u64)| (p.0@, p.1))
}

/// The tables that a list of names and ids stands for; of those with one name the last counts.
pub open spec fn listed(pairs: Seq<(Seq<char>, u64)>, n: nat) -> Map<Seq<char>, u64>
    decreases n,
{
    if n == 0 {
        Map::empty()
    } else {
        listed(pairs, (n - 1) as nat).insert(pairs[n - 1].0, pairs[n - 1].1)
    }
}

/// The eight bytes of a number, the lowest first.
pub open spec fn number_bytes(n: nat) -> Seq<u8> {
    Seq::new(8, |i: int| (n as int / pow(256, i as nat) % 256) as u8)
}

/// A text: the number of its bytes, and its bytes in UTF-8.
pub open spec fn text_bytes(s: Seq<char>) -> Seq<u8> {
    number_bytes(encode_utf8(s).len()) + encode_utf8(s)
}

/// The first `n` tables one after the other: of each its name and its id.
pub open spec fn pairs_bytes(tables: Seq<(Seq<char>, u64)>, n: nat) -> Seq<u8>
    decreases n,
{
    if n == 0 {
        Seq::empty()
    } else {
        pairs_bytes(tables, (n - 1) as nat) + text_bytes(tables[n - 1].0) + number_bytes(tables[n - 1].1 as nat)
    }
}

/// The first `n` texts one after the other.
pub open spec fn texts_bytes(v: Seq<Seq<char>>, n: nat) -> Seq<u8>
    decreases n,
{
    if n == 0 {
        Seq::empty()
    } else {
        texts_bytes(v, (n - 1) as nat) + text_bytes(v[n - 1])
    }
}

/// The bytes of a database with these tables: its id, how many tables there are, and the tables.
pub open spec fn database_bytes(id: u64, tables: Seq<(Seq<char>, u64)>) -> Seq<u8> {
    number_bytes(id as nat) + number_bytes(tables.len()) + pairs_bytes(tables, tables.len())
}

/// The database that bytes stand for.
pub uninterp spec fn database_in(bytes: Seq<u8>) -> Option<(u64, Seq<(Seq<char>, u64)>)>;

/// Encodes a database with `bincode::serialize`: numbers and lengths in eight bytes, the lowest
/// first, and nothing between the fields. What the bytes stand for is what was encoded.
#[verifier::external_body]
fn encode_database(id: u64, tables: &Vec<(String, u64)>) -> (r: Vec<u8>)
    ensures
        r@ == database_bytes(id, pairs_view(tables@)),
        database_in(r@) == Some((id, pairs_view(tables@))),
{
    bincode::serialize(&(id, tables)).unwrap()
}

/// Decodes a database with `bincode::deserialize`. The result depends on the bytes alone; there is
/// none where they stand for no database.
#[verifier::external_body]
fn decode_database(bytes: &[u8]) -> (r: Option<(u64, Vec<(String, u64)>)>)
    ensures
        match r {
            Some(d) => database_in(bytes@) == Some((d.0, pairs_view(d.1@))),
            None => database_in(bytes@) is None,
        },
{
    bincode::deserialize(bytes).ok()
}

/// The bytes of a table: its id, the number of bytes of its schema and these, how many parts there
/// are, and the parts.
pub open spec fn table_bytes(id: u64, schema: Seq<u8>, parts: Seq<Seq<char>>) -> Seq<u8> {
    number_bytes(id as nat) + number_bytes(schema.len()) + schema + number_bytes(parts.len()) + texts_bytes(
        parts,
        parts.len(),
    )
}

/// The table that bytes stand for.
pub uninterp spec fn table_in(bytes: Seq<u8>) -> Option<(u64, Seq<u8>, Seq<Seq<char>>)>;

/// Encodes a table with `bincode::serialize`, in the same way. What the bytes stand for is what was
/// encoded.
#[verifier::external_body]
fn encode_table(id: u64, schema: &Vec<u8>, parts: &Vec<String>) -> (r: Vec<u8>)
    ensures
        r@ == table_bytes(id, schema@, texts(parts@)),
        table_in(r@) == Some((id, schema@, texts(parts@))),
{
    bincode::serialize(&(id, schema, parts)).unwrap()
}

/// Decodes a table with `bincode::deserialize`. The result depends on the bytes alone; there is
/// none where they stand for no table.
#[verifier::external_body]
fn decode_table(bytes: &[u8]) -> (r: Option<(u64, Vec<u8>, Vec<String>)>)
    ensures
        match r {
            Some(t) => table_in(bytes@) == Some((t.0, t.1@, texts(t.2@))),
            None => table_in(bytes@) is None,
        },
{
    bincode::deserialize(bytes).ok()
}

#[derive(Debug)]
pub struct Database {
    pub database_id: u64,
    /// tables belong to this database.
    pub tables: VecMap<String, u64>,
}

/// The database that an id and a list of tables stand for.
pub open spec fn is_database(d: Database, id: u64, pairs: Seq<(Seq<char>, u64)>) -> bool {
    d.tables.wf() && d.database_id == id && d.tables@ == listed(pairs, pairs.len())
}

proof fn lemma_listed(entries: Seq<(String, u64)>, n: nat)
    requires
        n <= entries.len(),
    ensures
        entries_map(entries, n) == listed(pairs_view(entries), n),
    decreases n,
{
    if n > 0 {
        lemma_listed(entries, (n - 1) as nat);
    }
}

impl Database {
    /// The database that an id and a list of tables stand for.
    pub fn from_parts(id: u64, tables: Vec<(String, u64)>) -> (r: Database)
        ensures
            is_database(r, id, pairs_view(tables@)),
    {
        proof {
            lemma_listed(tables@, tables@.len());
        }
        Database { database_id: id, tables: VecMap::from_entries(tables) }
    }

    pub fn deserialize_from_vec(v: &[u8]) -> (r: Option<Database>)
        ensures
            match database_in(v@) {
                Some(d) => r matches Some(db) && is_database(db, d.0, d.1),
                None => r is None,
            },
    {
        match decode_database(v) {
            Some((id, tables)) => Some(Database::from_parts(id, tables)),
            None => None,
        }
    }

    pub fn serialize_into_vec(&self) -> (r: Vec<u8>)
        requires
            self.tables.wf(),
        ensures
            exists|pairs: Seq<(Seq<char>, u64)>| {
                &&& r@ == #[trigger] database_bytes(self.database_id, pairs)
                &&& database_in(r@) == Some((self.database_id, pairs))
                &&& pairs.len() == self.tables@.len()
                &&& listed(pairs, pairs.len()) == self.tables@
            },
    {
        let entries = self.tables.entries();
        let r = encode_database(self.database_id, entries);
        proof {
            lemma_listed(entries@, entries@.len());
            let pairs = pairs_view(entries@);
            assert(r@ == database_bytes(self.database_id, pairs));
            assert(listed(pairs, pairs.len()) == self.tables@);
        }
        r
    }

    pub fn to_text(&self) -> (r: String)
        ensures
            r@ == "database id: "@ + decimal(self.database_id as nat),
    {
        let id = decimal_text(self.database_id);
        let r = concat("database id: ", id.as_str(), "", "");
        proof {
            reveal_strlit("");
            assert(r@ =~= "database id: "@ + decimal(self.database_id as nat));
        }
        r
    }
}

#[derive(Debug)]
pub struct Table {
    pub table_id: u64,
    /// serialized schema
    pub schema: Vec<u8>,
    /// name of parts that belong to this table.
    pub parts: VecMap<String, ()>,
}

/// The table that an id, a schema and a list of parts stand for.
pub open spec fn is_table(t: Table, id: u64, schema: Seq<u8>, parts: Seq<Seq<char>>) -> bool {
    t.parts.wf() && t.table_id == id && t.schema@ == schema && t.parts@.dom() == parts.to_set()
}

impl Table {
    /// The table that an id, a schema and a list of parts stand for.
    pub fn from_parts(id: u64, schema: Vec<u8>, parts: Vec<String>) -> (r: Table)
        ensures
            is_table(r, id, schema@, texts(parts@)),
    {
        let mut names: VecMap<String, ()> = VecMap::new();
        let ghost all = texts(parts@);
        let mut i: usize = 0;
        assert(names@.dom() =~= all.take(0).to_set());
        while i < parts.len()
            invariant
                i <= parts@.len(),
                all == texts(parts@),
                names.wf(),
                names@.dom() == all.take(i as int).to_set(),
            decreases parts.len() - i,
        {
            names.insert(parts[i].clone(), ());
            proof {
                let before = all.take(i as int);
                let now = all.take(i + 1);
                assert(now =~= before.push(parts@[i as int]@));
                assert forall|s: Seq<char>| before.to_set().insert(parts@[i as int]@).contains(s) implies now.to_set().contains(
                    s,
                ) by {
                    if before.contains(s) {
                        let k = choose|k: int| 0 <= k < before.len() && before[k] == s;
                        assert(now[k] == s);
                    } else {
                        assert(now[i as int] == s);
                    }
                }
                assert(names@.dom() =~= now.to_set());
            }
            i += 1;
        }
        assert(all.take(i as int) =~= all);
        Table { table_id: id, schema, parts: names }
    }

    pub fn deserialize_from_vec(v: &[u8]) -> (r: Option<Table>)
        ensures
            match table_in(v@) {
                Some(t) => r matches Some(table) && is_table(table, t.0, t.1, t.2),
                None => r is None,
            },
    {
        match decode_table(v) {
            Some((id, schema, parts)) => Some(Table::from_parts(id, schema, parts)),
            None => None,
        }
    }

    pub fn serialize_into_vec(&self) -> (r: Vec<u8>)
        requires
            self.parts.wf(),
        ensures
            exists|parts: Seq<Seq<char>>| {
                &&& r@ == #[trigger] table_bytes(self.table_id, self.schema@, parts)
                &&& table_in(r@) == Some((self.table_id, self.schema@, parts))
                &&& parts.len() == self.parts@.len()
                &&& parts.to_set() == self.parts@.dom()
            },
    {
        let entries = self.parts.entries();
        let ghost all = entries@;
        let mut names: Vec<String> = Vec::new();
        let mut i: usize = 0;
        assert(texts(names@).to_set() =~= entries_map(all, 0).dom());
        while i < entries.len()
            invariant
                i <= entries@.len(),
                all == entries@,
                names@.len() == i,
                texts(names@).to_set() == entries_map(all, i as nat).dom(),
            decreases entries.len() - i,
        {
            let ghost before = texts(names@);
            names.push(entries[i].0.clone());
            proof {
                let now = texts(names@);
                let name = all[i as int].0@;
                assert(now =~= before.push(name));
                assert forall|s: Seq<char>| before.to_set().insert(name).contains(s) implies now.to_set().contains(s) by {
                    if before.contains(s) {
                        let k = choose|k: int| 0 <= k < before.len() && before[k] == s;
                        assert(now[k] == s);
                    } else {
                        assert(now[i as int] == s);
                    }
                }
                assert(now.to_set() =~= entries_map(all, (i + 1) as nat).dom());
            }
            i += 1;
        }
        let r = encode_table(self.table_id, &self.schema, &names);
        proof {
            let parts = texts(names@);
            assert(r@ == table_bytes(self.table_id, self.schema@, parts));
        }
        r
    }

    pub fn to_text(&self) -> (r: String)
        ensures
            r@ == "table id: "@ + decimal(self.table_id as nat),
    {
        let id = decimal_text(self.table_id);
        let r = concat("table id: ", id.as_str(), "", "");
        proof {
            reveal_strlit("");
            assert(r@ =~= "table id: "@ + decimal(self.table_id as nat));
        }
        r
    }
}

/// What a database was serialized into is deserialized to the same database.
pub proof fn database_is_read_back(db: Database, bytes: Seq<u8>, read: Database)
    requires
        exists|pairs: Seq<(Seq<char>, u64)>| {
            &&& bytes == #[trigger] database_bytes(db.database_id, pairs)
            &&& database_in(bytes) == Some((db.database_id, pairs))
            &&& pairs.len() == db.tables@.len()
            &&& listed(pairs, pairs.len()) == db.tables@
        },
        database_in(bytes) matches Some(d) && is_database(read, d.0, d.1),
    ensures
        read.database_id == db.database_id,
        read.tables@ == db.tables@,
{
}

/// What a table was serialized into is deserialized to the same table.
pub proof fn table_is_read_back(table: Table, bytes: Seq<u8>, read: Table)
    requires
        exists|parts: Seq<Seq<char>>| {
            &&& bytes == #[trigger] table_bytes(table.table_id, table.schema@, parts)
            &&& table_in(bytes) == Some((table.table_id, table.schema@, parts))
            &&& parts.len() == table.parts@.len()
            &&& parts.to_set() == table.parts@.dom()
        },
        table_in(bytes) matches Some(t) && is_table(read, t.0, t.1, t.2),
    ensures
        read.table_id == table.table_id,
        read.schema@ == table.schema@,
        read.parts@.dom() == table.parts@.dom(),
{
}

/// A number is written from its lowest byte up.
pub proof fn numbers_are_written_from_the_lowest_byte(n: u64, i: int)
    requires
        0 <= i < 7,
    ensures
        number_bytes(n as nat).len() == 8,
        number_bytes(n as nat)[0] as int == n as int % 256,
        number_bytes(n as nat)[i + 1] == number_bytes((n / 256) as nat)[i],
{
    let v = n as int;
    vstd::arithmetic::power::lemma_pow0(256);
    vstd::arithmetic::power::lemma_pow_adds(256, 1, i as nat);
    vstd::arithmetic::power::lemma_pow1(256);
    vstd::arithmetic::power::lemma_pow_positive(256, i as nat);
    assert(pow(256, (i + 1) as nat) == 256 * pow(256, i as nat));
    vstd::arithmetic::div_mod::lemma_div_denominator(v, 256, pow(256, i as nat));
    assert(v / pow(256, (i + 1) as nat) == (v / 256) / pow(256, i as nat));
}

/// A text is written with the number of its bytes before them.
pub proof fn texts_are_written_with_their_length(s: Seq<char>)
    ensures
        text_bytes(s).len() == 8 + encode_utf8(s).len(),
        text_bytes(s).take(8) == number_bytes(encode_utf8(s).len()),
        text_bytes(s).skip(8) == encode_utf8(s),
{
    assert(text_bytes(s).take(8) =~= number_bytes(encode_utf8(s).len()));
    assert(text_bytes(s).skip(8) =~= encode_utf8(s));
}

/// Of tables with one name the last one counts.
pub proof fn tables_are_found_by_name(pairs: Seq<(Seq<char>, u64)>, n: nat, name: Seq<char>)
    requires
        n <= pairs.len(),
    ensures
        listed(pairs, n).contains_key(name) <==> exists|i: int| 0 <= i < n && (#[trigger] pairs[i]).0 == name,
        forall|i: int|
            0 <= i < n && (#[trigger] pairs[i]).0 == name && (forall|j: int| i < j < n ==> (#[trigger] pairs[j]).0 != name)
                ==> listed(pairs, n)[name] == pairs[i].1,
    decreases n,
{
    if n > 0 {
        tables_are_found_by_name(pairs, (n - 1) as nat, name);
        assert forall|i: int|
            0 <= i < n && (#[trigger] pairs[i]).0 == name && (forall|j: int|
                i < j < n ==> (#[trigger] pairs[j]).0 != name) implies listed(pairs, n)[name] == pairs[i].1 by {
            if i < n - 1 {
                assert(pairs[n - 1].0 != name);
            }
        }
        if listed(pairs, (n - 1) as nat).contains_key(name) {
            let i = choose|i: int| 0 <= i < n - 1 && (#[trigger] pairs[i]).0 == name;
            assert(pairs[i].0 == name);
        }
        if pairs[n - 1].0 == name {
            assert(listed(pairs, n).contains_key(name));
        }
    }
}

/// The tables of a database are written one after the other, each with its name before its id.
pub proof fn tables_are_written_in_turn(tables: Seq<(Seq<char>, u64)>, n: nat)
    requires
        n < tables.len(),
    ensures
        pairs_bytes(tables, 0) == Seq::<u8>::empty(),
        pairs_bytes(tables, n + 1) == pairs_bytes(tables, n) + text_bytes(tables[n as int].0) + number_bytes(
            tables[n as int].1 as nat,
        ),
{
}

/// Texts are written one after the other.
pub proof fn texts_are_written_in_turn(v: Seq<Seq<char>>, n: nat)
    requires
        n < v.len(),
    ensures
        texts_bytes(v, 0) == Seq::<u8>::empty(),
        texts_bytes(v, n + 1) == texts_bytes(v, n) + text_bytes(v[n as int]),
{
}

}
