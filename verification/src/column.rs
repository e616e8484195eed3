//! The columns of the database and the names that stand for them in database keys.
use vstd::prelude::*;
use vstd::utf8::*;

use crate::bytes::bytes_equal;

verus! {

/// A unique column identifier.
#[derive(Debug, Clone, Copy, PartialEq, Eq, Structural)]
pub enum DBColumn {
    /// For data related to the database itself.
    BeaconMeta,
    BeaconBlock,
    BeaconBlob,
    /// For full `BeaconState`s in the hot database (finalized or fork-boundary states).
    BeaconState,
    /// For the mapping from state roots to their slots or summaries.
    BeaconStateSummary,
    /// For the list of temporary states stored during block import,
    /// and then made non-temporary by the deletion of their state root from this column.
    BeaconStateTemporary,
    /// Execution payloads for blocks more recent than the finalized checkpoint.
    ExecPayload,
    /// For persisting in-memory state to the database.
    BeaconChain,
    OpPool,
    Eth1Cache,
    ForkChoice,
    PubkeyCache,
    /// For the table mapping restore point numbers to state roots.
    BeaconRestorePoint,
    BeaconBlockRoots,
    BeaconStateRoots,
    BeaconHistoricalRoots,
    BeaconRandaoMixes,
    DhtEnrs,
    /// For Optimistically Imported Merge Transition Blocks
    OptimisticTransitionBlock,
    BeaconHistoricalSummaries,
    /// Deprecated.
    OverflowLRUCache,
}

/// The error of reading a column from text that names no column.
#[derive(Debug, Clone, Copy, PartialEq, Eq, Structural)]
pub enum ParseError {
    VariantNotFound,
}

impl DBColumn {
    /// The name of the column, with which every database key of the column begins.
    pub open spec fn label(self) -> &'static str {
        match self {
            DBColumn::BeaconMeta => "bma",
            DBColumn::BeaconBlock => "blk",
            DBColumn::BeaconBlob => "blb",
            DBColumn::BeaconState => "ste",
            DBColumn::BeaconStateSummary => "bss",
            DBColumn::BeaconStateTemporary => "bst",
            DBColumn::ExecPayload => "exp",
            DBColumn::BeaconChain => "bch",
            DBColumn::OpPool => "opo",
            DBColumn::Eth1Cache => "etc",
            DBColumn::ForkChoice => "frk",
            DBColumn::PubkeyCache => "pkc",
            DBColumn::BeaconRestorePoint => "brp",
            DBColumn::BeaconBlockRoots => "bbr",
            DBColumn::BeaconStateRoots => "bsr",
            DBColumn::BeaconHistoricalRoots => "bhr",
            DBColumn::BeaconRandaoMixes => "brm",
            DBColumn::DhtEnrs => "dht",
            DBColumn::OptimisticTransitionBlock => "otb",
            DBColumn::BeaconHistoricalSummaries => "bhs",
            DBColumn::OverflowLRUCache => "olc",
        }
    }

    /// The characters of the column's name.
    pub open spec fn name(self) -> Seq<char> {
        self.label()@
    }

    /// The bytes of the column's name.
    pub open spec fn prefix(self) -> Seq<u8> {
        encode_utf8(self.name())
    }

    /// Whether the keys of the column are slots or chunk indices of the freezer database.
    pub open spec fn has_freezer_keys(self) -> bool {
        ||| self is BeaconBlockRoots
        ||| self is BeaconStateRoots
        ||| self is BeaconHistoricalRoots
        ||| self is BeaconHistoricalSummaries
        ||| self is BeaconRandaoMixes
    }

    /// The number of bytes used by the keys of the column.
    pub open spec fn key_len(self) -> nat {
        if self is OverflowLRUCache {
            33
        } else if self.has_freezer_keys() {
            8
        } else {
            32
        }
    }

    /// The column's name.
    pub fn as_str(self) -> (r: &'static str)
        ensures
            r == self.label(),
            r@ == self.name(),
    {
        match self {
            DBColumn::BeaconMeta => "bma",
            DBColumn::BeaconBlock => "blk",
            DBColumn::BeaconBlob => "blb",
            DBColumn::BeaconState => "ste",
            DBColumn::BeaconStateSummary => "bss",
            DBColumn::BeaconStateTemporary => "bst",
            DBColumn::ExecPayload => "exp",
            DBColumn::BeaconChain => "bch",
            DBColumn::OpPool => "opo",
            DBColumn::Eth1Cache => "etc",
            DBColumn::ForkChoice => "frk",
            DBColumn::PubkeyCache => "pkc",
            DBColumn::BeaconRestorePoint => "brp",
            DBColumn::BeaconBlockRoots => "bbr",
            DBColumn::BeaconStateRoots => "bsr",
            DBColumn::BeaconHistoricalRoots => "bhr",
            DBColumn::BeaconRandaoMixes => "brm",
            DBColumn::DhtEnrs => "dht",
            DBColumn::OptimisticTransitionBlock => "otb",
            DBColumn::BeaconHistoricalSummaries => "bhs",
            DBColumn::OverflowLRUCache => "olc",
        }
    }

    /// The bytes of the column's name, one for each of its characters.
    pub fn as_bytes(self) -> (r: &'static [u8])
        ensures
            r@ == self.prefix(),
            r@.len() == 3,
            forall|i: int| 0 <= i < 3 ==> #[trigger] r@[i] == self.name()[i] as u8,
    {
        proof {
            names_are_three_ascii_characters(self);
        }
        self.as_str().as_bytes()
    }

    /// Most database keys are 32 bytes, but some freezer DB keys are 8 bytes.
    ///
    /// This function returns the number of bytes used by keys in a given column.
    pub fn key_size(self) -> (r: usize)
        ensures
            r == self.key_len(),
    {
        match self {
            DBColumn::OverflowLRUCache => 33,
            DBColumn::BeaconMeta
            | DBColumn::BeaconBlock
            | DBColumn::BeaconState
            | DBColumn::BeaconBlob
            | DBColumn::BeaconStateSummary
            | DBColumn::BeaconStateTemporary
            | DBColumn::ExecPayload
            | DBColumn::BeaconChain
            | DBColumn::OpPool
            | DBColumn::Eth1Cache
            | DBColumn::ForkChoice
            | DBColumn::PubkeyCache
            | DBColumn::BeaconRestorePoint
            | DBColumn::DhtEnrs
            | DBColumn::OptimisticTransitionBlock => 32,
            DBColumn::BeaconBlockRoots
            | DBColumn::BeaconStateRoots
            | DBColumn::BeaconHistoricalRoots
            | DBColumn::BeaconHistoricalSummaries
            | DBColumn::BeaconRandaoMixes => 8,
        }
    }

    /// The column that `text` names, if it names one.
    pub fn from_name(text: &str) -> (r: Result<DBColumn, ParseError>)
        ensures
            r == column_named(text@),
    {
        let columns = every_column();
        let bytes = text.as_bytes();
        let mut i: usize = 0;
        while i < columns.len()
            invariant
                lists_every_column(columns@),
                bytes@ == encode_utf8(text@),
                i <= columns@.len(),
                forall|j: int| 0 <= j < i ==> (#[trigger] columns@[j]).name() != text@,
            decreases columns@.len() - i,
        {
            let column = columns[i];
            if bytes_equal(column.as_bytes(), bytes) {
                proof {
                    encode_utf8_decode_utf8(column.name());
                    encode_utf8_decode_utf8(text@);
                    names_identify_columns(column, column_named(text@)->Ok_0);
                }
                return Ok(column);
            }
            i = i + 1;
        }
        assert forall|column: DBColumn| #[trigger] column.name() != text@ by {
            assert(columns@.contains(column));
        }
        Err(ParseError::VariantNotFound)
    }
}

/// The column with the name `text`, if there is one.
pub open spec fn column_named(text: Seq<char>) -> Result<DBColumn, ParseError> {
    if exists|column: DBColumn| #[trigger] column.name() == text {
        Ok(choose|column: DBColumn| #[trigger] column.name() == text)
    } else {
        Err(ParseError::VariantNotFound)
    }
}

/// Whether `columns` leaves no column out.
spec fn lists_every_column(columns: Seq<DBColumn>) -> bool {
    forall|column: DBColumn| #[trigger] columns.contains(column)
}

/// The place of `column` in the declaration of the columns.
spec fn ordinal(column: DBColumn) -> int {
    match column {
        DBColumn::BeaconMeta => 0,
        DBColumn::BeaconBlock => 1,
        DBColumn::BeaconBlob => 2,
        DBColumn::BeaconState => 3,
        DBColumn::BeaconStateSummary => 4,
        DBColumn::BeaconStateTemporary => 5,
        DBColumn::ExecPayload => 6,
        DBColumn::BeaconChain => 7,
        DBColumn::OpPool => 8,
        DBColumn::Eth1Cache => 9,
        DBColumn::ForkChoice => 10,
        DBColumn::PubkeyCache => 11,
        DBColumn::BeaconRestorePoint => 12,
        DBColumn::BeaconBlockRoots => 13,
        DBColumn::BeaconStateRoots => 14,
        DBColumn::BeaconHistoricalRoots => 15,
        DBColumn::BeaconRandaoMixes => 16,
        DBColumn::DhtEnrs => 17,
        DBColumn::OptimisticTransitionBlock => 18,
        DBColumn::BeaconHistoricalSummaries => 19,
        DBColumn::OverflowLRUCache => 20,
    }
}

/// All columns, in the order of their declaration.
fn every_column() -> (r: [DBColumn; 21])
    ensures
        lists_every_column(r@),
{
    let columns = [
        DBColumn::BeaconMeta,
        DBColumn::BeaconBlock,
        DBColumn::BeaconBlob,
        DBColumn::BeaconState,
        DBColumn::BeaconStateSummary,
        DBColumn::BeaconStateTemporary,
        DBColumn::ExecPayload,
        DBColumn::BeaconChain,
        DBColumn::OpPool,
        DBColumn::Eth1Cache,
        DBColumn::ForkChoice,
        DBColumn::PubkeyCache,
        DBColumn::BeaconRestorePoint,
        DBColumn::BeaconBlockRoots,
        DBColumn::BeaconStateRoots,
        DBColumn::BeaconHistoricalRoots,
        DBColumn::BeaconRandaoMixes,
        DBColumn::DhtEnrs,
        DBColumn::OptimisticTransitionBlock,
        DBColumn::BeaconHistoricalSummaries,
        DBColumn::OverflowLRUCache,
    ];
    assert forall|column: DBColumn| #[trigger] columns@.contains(column) by {
        assert(column == columns@[ordinal(column)]);
    }
    columns
}

/// The characters of the column's name, one by one.
spec fn letters(column: DBColumn) -> Seq<char> {
    match column {
        DBColumn::BeaconMeta => seq!['b', 'm', 'a'],
        DBColumn::BeaconBlock => seq!['b', 'l', 'k'],
        DBColumn::BeaconBlob => seq!['b', 'l', 'b'],
        DBColumn::BeaconState => seq!['s', 't', 'e'],
        DBColumn::BeaconStateSummary => seq!['b', 's', 's'],
        DBColumn::BeaconStateTemporary => seq!['b', 's', 't'],
        DBColumn::ExecPayload => seq!['e', 'x', 'p'],
        DBColumn::BeaconChain => seq!['b', 'c', 'h'],
        DBColumn::OpPool => seq!['o', 'p', 'o'],
        DBColumn::Eth1Cache => seq!['e', 't', 'c'],
        DBColumn::ForkChoice => seq!['f', 'r', 'k'],
        DBColumn::PubkeyCache => seq!['p', 'k', 'c'],
        DBColumn::BeaconRestorePoint => seq!['b', 'r', 'p'],
        DBColumn::BeaconBlockRoots => seq!['b', 'b', 'r'],
        DBColumn::BeaconStateRoots => seq!['b', 's', 'r'],
        DBColumn::BeaconHistoricalRoots => seq!['b', 'h', 'r'],
        DBColumn::BeaconRandaoMixes => seq!['b', 'r', 'm'],
        DBColumn::DhtEnrs => seq!['d', 'h', 't'],
        DBColumn::OptimisticTransitionBlock => seq!['o', 't', 'b'],
        DBColumn::BeaconHistoricalSummaries => seq!['b', 'h', 's'],
        DBColumn::OverflowLRUCache => seq!['o', 'l', 'c'],
    }
}

/// The name of a column consists of its letters.
proof fn lemma_letters(column: DBColumn)
    ensures
        column.name() == letters(column),
{
    reveal_strlit("bma");
    reveal_strlit("blk");
    reveal_strlit("blb");
    reveal_strlit("ste");
    reveal_strlit("bss");
    reveal_strlit("bst");
    reveal_strlit("exp");
    reveal_strlit("bch");
    reveal_strlit("opo");
    reveal_strlit("etc");
    reveal_strlit("frk");
    reveal_strlit("pkc");
    reveal_strlit("brp");
    reveal_strlit("bbr");
    reveal_strlit("bsr");
    reveal_strlit("bhr");
    reveal_strlit("brm");
    reveal_strlit("dht");
    reveal_strlit("otb");
    reveal_strlit("bhs");
    reveal_strlit("olc");
    assert(column.name() =~= letters(column));
}

/// The name of a column is three ASCII characters long, and so are its bytes.
pub proof fn names_are_three_ascii_characters(column: DBColumn)
    ensures
        column.name().len() == 3,
        is_ascii_chars(column.name()),
        column.prefix().len() == 3,
        forall|i: int| 0 <= i < 3 ==> #[trigger] column.prefix()[i] == column.name()[i] as u8,
{
    lemma_letters(column);
    is_ascii_chars_encode_utf8(column.name());
}

/// No two columns share a name, nor the bytes of one.
pub proof fn names_identify_columns(a: DBColumn, b: DBColumn)
    ensures
        a.name() == b.name() <==> a == b,
        a.prefix() == b.prefix() <==> a == b,
{
    encode_utf8_decode_utf8(a.name());
    encode_utf8_decode_utf8(b.name());
    lemma_letters(a);
    lemma_letters(b);
    if a.name() == b.name() {
        assert(letters(a)[0] == letters(b)[0] && letters(a)[1] == letters(b)[1] && letters(a)[2]
            == letters(b)[2]);
    }
}

/// Text is read as the column that it names.
pub proof fn name_reads_back(column: DBColumn)
    ensures
        column_named(column.name()) == Ok::<DBColumn, ParseError>(column),
{
    names_identify_columns(column, column_named(column.name())->Ok_0);
}

impl vstd::std_specs::convert::FromSpecImpl<DBColumn> for &'static str {
    open spec fn obeys_from_spec() -> bool {
        true
    }

    open spec fn from_spec(column: DBColumn) -> &'static str {
        column.label()
    }
}

impl From<DBColumn> for &'static str {
    fn from(column: DBColumn) -> (r: &'static str) {
        column.as_str()
    }
}

impl<'a> vstd::std_specs::convert::FromSpecImpl<&'a DBColumn> for &'static str {
    open spec fn obeys_from_spec() -> bool {
        true
    }

    open spec fn from_spec(column: &'a DBColumn) -> &'static str {
        column.label()
    }
}

impl<'a> From<&'a DBColumn> for &'static str {
    fn from(column: &'a DBColumn) -> (r: &'static str) {
        column.as_str()
    }
}

impl core::str::FromStr for DBColumn {
    type Err = ParseError;

    fn from_str(text: &str) -> (r: Result<DBColumn, ParseError>)
        ensures
            r == column_named(text@),
    {
        DBColumn::from_name(text)
    }
}

impl<'a> vstd::std_specs::convert::TryFromSpecImpl<&'a str> for DBColumn {
    open spec fn obeys_try_from_spec() -> bool {
        true
    }

    open spec fn try_from_spec(text: &'a str) -> Result<DBColumn, ParseError> {
        column_named(text@)
    }
}

impl<'a> TryFrom<&'a str> for DBColumn {
    type Error = ParseError;

    fn try_from(text: &'a str) -> (r: Result<DBColumn, ParseError>) {
        DBColumn::from_name(text)
    }
}

} // verus!
