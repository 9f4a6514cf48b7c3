use vstd::prelude::*;

verus! {

/// The interval, in seconds, of a block whose configuration gives none.
pub const DEFAULT_INTERVAL: u64 = 5;

/// One block of the panel: a shell command and how often it runs.
#[derive(Clone, Debug)]
pub struct BlockConfig {
    pub command: String,
    pub interval: u64,
}

/// A block, by value.
pub struct BlockView {
    pub command: Seq<char>,
    pub interval: u64,
}

impl View for BlockConfig {
    type V = BlockView;

    open spec fn view(&self) -> BlockView {
        BlockView { command: self.command@, interval: self.interval }
    }
}

/// The applet's configuration: its blocks, in panel order, and the text shown
/// between them. (The font size, a floating-point number, is kept by the
/// application around this library.)
#[derive(Clone, Debug)]
pub struct ExecutorConfig {
    pub blocks: Vec<BlockConfig>,
    pub separator: String,
}

/// A configuration, by value.
pub struct ConfigView {
    pub blocks: Seq<BlockView>,
    pub separator: Seq<char>,
}

/// Each block, by value.
pub open spec fn blocks_view(blocks: Seq<BlockConfig>) -> Seq<BlockView> {
    blocks.map_values(|b: BlockConfig| b@)
}

impl View for ExecutorConfig {
    type V = ConfigView;

    open spec fn view(&self) -> ConfigView {
        ConfigView { blocks: blocks_view(self.blocks@), separator: self.separator@ }
    }
}

/// The separator of a configuration that names none: `|` with a space on
/// each side.
pub open spec fn default_separator() -> Seq<char> {
    seq![' ', '|', ' ']
}

/// The configuration used when there is no readable configuration file: no
/// blocks, and ` | ` between them.
pub open spec fn default_config() -> ConfigView {
    ConfigView { blocks: Seq::empty(), separator: default_separator() }
}

impl Default for ExecutorConfig {
    fn default() -> (c: ExecutorConfig)
        ensures
            c@ == default_config(),
    {
        let mut separator = String::new();
        proof {
            reveal_strlit(" | ");
        }
        separator.append(" | ");
        let c = ExecutorConfig { blocks: Vec::new(), separator };
        assert(c@.blocks =~= Seq::<BlockView>::empty());
        assert(c@.separator =~= default_separator());
        c
    }
}

/// One entry of the `blocks` array of a configuration file, as far as the
/// applet reads it: its `command` when that is a string, and its `interval`
/// when that is an integer that fits in a `u64`.
#[derive(Clone, Debug)]
pub struct BlockEntry {
    pub command: Option<String>,
    pub interval: Option<u64>,
}

/// An entry of a configuration file, by value.
pub struct BlockEntryView {
    pub command: Option<Seq<char>>,
    pub interval: Option<u64>,
}

impl View for BlockEntry {
    type V = BlockEntryView;

    open spec fn view(&self) -> BlockEntryView {
        BlockEntryView {
            command: match &self.command {
                Some(c) => Some(c@),
                None => None,
            },
            interval: self.interval,
        }
    }
}

/// A configuration file that holds valid JSON, as far as the applet reads
/// it: its top-level `separator` when that is a string, and its top-level
/// `blocks` when that is an array.
#[derive(Clone, Debug)]
pub struct ConfigDocument {
    pub separator: Option<String>,
    pub blocks: Option<Vec<BlockEntry>>,
}

/// A configuration file, by value.
pub struct ConfigDocumentView {
    pub separator: Option<Seq<char>>,
    pub blocks: Option<Seq<BlockEntryView>>,
}

impl View for ConfigDocument {
    type V = ConfigDocumentView;

    open spec fn view(&self) -> ConfigDocumentView {
        ConfigDocumentView {
            separator: match &self.separator {
                Some(s) => Some(s@),
                None => None,
            },
            blocks: match &self.blocks {
                Some(b) => Some(b@.map_values(|e: BlockEntry| e@)),
                None => None,
            },
        }
    }
}

/// What `serde_json` reads from the text of a configuration file, in the
/// terms of `ConfigDocument`; nothing when the text is not valid JSON.
pub uninterp spec fn json_config_document(text: Seq<char>) -> Option<ConfigDocumentView>;

/// Parses `text` with `serde_json::from_str` into a `serde_json::Value` and
/// picks out the fields that the applet reads, with `Value::get`,
/// `Value::as_str`, `Value::as_array` and `Value::as_u64`. Its result is
/// named, not stated: JSON parsing is `serde_json`'s.
#[verifier::external_body]
fn read_config_document(text: &str) -> (r: Option<ConfigDocument>)
    ensures
        match r {
            Some(d) => json_config_document(text@) == Some(d@),
            None => json_config_document(text@) is None,
        },
{
    let value: serde_json::Value = serde_json::from_str(text).ok()?;
    let text_of = |v: &serde_json::Value| v.as_str().map(|s| s.to_string());
    let separator = value.get("separator").and_then(text_of);
    let blocks = value.get("blocks").and_then(|b| b.as_array()).map(|entries| {
        entries.iter().map(|e| BlockEntry {
            command: e.get("command").and_then(text_of),
            interval: e.get("interval").and_then(|i| i.as_u64()),
        }).collect()
    });
    Some(ConfigDocument { separator, blocks })
}

/// The block that a configuration entry gives: one with a non-empty command,
/// and the interval it names or 5 seconds; none for an entry without a
/// non-empty string command.
pub open spec fn entry_blocks(e: BlockEntryView) -> Seq<BlockView> {
    match e.command {
        Some(c) => if c.len() > 0 {
            seq![
                BlockView {
                    command: c,
                    interval: match e.interval {
                        Some(i) => i,
                        None => DEFAULT_INTERVAL,
                    },
                },
            ]
        } else {
            Seq::empty()
        },
        None => Seq::empty(),
    }
}

/// The blocks that the entries give, in their order.
pub open spec fn entries_blocks(entries: Seq<BlockEntryView>) -> Seq<BlockView>
    decreases entries.len(),
{
    if entries.len() == 0 {
        Seq::empty()
    } else {
        entries_blocks(entries.drop_last()) + entry_blocks(entries.last())
    }
}

/// The configuration that a configuration file gives: the default one when
/// the file could not be read as JSON; otherwise its separator or ` | `, and
/// the blocks of its entries.
pub open spec fn config_from_document(doc: Option<ConfigDocumentView>) -> ConfigView {
    match doc {
        None => default_config(),
        Some(d) => ConfigView {
            blocks: match d.blocks {
                Some(entries) => entries_blocks(entries),
                None => Seq::empty(),
            },
            separator: match d.separator {
                Some(s) => s,
                None => default_separator(),
            },
        },
    }
}

/// The configuration that the text of a configuration file gives, or that no
/// readable file gives.
pub open spec fn config_from_text(text: Option<Seq<char>>) -> ConfigView {
    match text {
        Some(t) => config_from_document(json_config_document(t)),
        None => default_config(),
    }
}

impl ExecutorConfig {
    /// The configuration that a configuration file gives, read as
    /// `ConfigDocument`.
    pub fn from_document(doc: Option<ConfigDocument>) -> (c: ExecutorConfig)
        ensures
            c@ == config_from_document(
                match doc {
                    Some(d) => Some(d@),
                    None => None,
                },
            ),
    {
        match doc {
            None => ExecutorConfig::default(),
            Some(d) => {
                let ghost dv = d@;
                let separator = match d.separator {
                    Some(s) => s,
                    None => {
                        let mut s = String::new();
                        proof {
                            reveal_strlit(" | ");
                        }
                        s.append(" | ");
                        assert(s@ =~= default_separator());
                        s
                    },
                };
                let mut blocks: Vec<BlockConfig> = Vec::new();
                match d.blocks {
                    Some(entries) => {
                        let ghost ev = entries@.map_values(|e: BlockEntry| e@);
                        assert(ev.take(0) =~= Seq::<BlockEntryView>::empty());
                        for i in 0..entries.len()
                            invariant
                                ev == entries@.map_values(|e: BlockEntry| e@),
                                blocks_view(blocks@) == entries_blocks(ev.take(i as int)),
                        {
                            let entry = &entries[i];
                            assert(ev.take(i + 1).drop_last() =~= ev.take(i as int));
                            let ghost before = blocks_view(blocks@);
                            match &entry.command {
                                Some(c) => {
                                    if !c.as_str().is_empty() {
                                        let interval = match entry.interval {
                                            Some(v) => v,
                                            None => DEFAULT_INTERVAL,
                                        };
                                        blocks.push(BlockConfig { command: c.clone(), interval });
                                        assert(blocks_view(blocks@) =~= before + entry_blocks(ev[i as int]));
                                    } else {
                                        assert(c@.len() == 0);
                                        assert(blocks_view(blocks@) =~= before + entry_blocks(ev[i as int]));
                                    }
                                },
                                None => {
                                    assert(blocks_view(blocks@) =~= before + entry_blocks(ev[i as int]));
                                },
                            }
                        }
                        assert(ev.take(entries.len() as int) =~= ev);
                    },
                    None => {
                        assert(blocks_view(blocks@) =~= Seq::<BlockView>::empty());
                    },
                }
                ExecutorConfig { blocks, separator }
            },
        }
    }

    /// The configuration that the text of the configuration file gives; the
    /// default configuration when there is no readable file (`None`).
    pub fn config(file_text: Option<&str>) -> (c: ExecutorConfig)
        ensures
            c@ == config_from_text(
                match file_text {
                    Some(t) => Some(t@),
                    None => None,
                },
            ),
    {
        match file_text {
            Some(t) => ExecutorConfig::from_document(read_config_document(t)),
            None => ExecutorConfig::default(),
        }
    }
}

impl ExecutorConfig {
    /// A copy of this configuration.
    pub fn copy(&self) -> (c: ExecutorConfig)
        ensures
            c@ == self@,
    {
        let mut blocks: Vec<BlockConfig> = Vec::new();
        for i in 0..self.blocks.len()
            invariant
                blocks_view(blocks@) == blocks_view(self.blocks@).take(i as int),
        {
            let ghost before = blocks_view(blocks@);
            let block = BlockConfig { command: self.blocks[i].command.clone(), interval: self.blocks[i].interval };
            assert(block@ == self.blocks@[i as int]@);
            blocks.push(block);
            assert(blocks_view(blocks@) =~= before.push(self.blocks@[i as int]@));
            assert(blocks_view(self.blocks@).take(i + 1) =~= blocks_view(self.blocks@).take(i as int).push(self.blocks@[i as int]@));
        }
        assert(blocks_view(self.blocks@).take(self.blocks.len() as int) =~= blocks_view(self.blocks@));
        ExecutorConfig { blocks, separator: self.separator.clone() }
    }
}

/// Every block read from a configuration file has a non-empty command.
pub proof fn lemma_loaded_commands_not_empty(entries: Seq<BlockEntryView>)
    ensures
        forall|j: int|
            0 <= j < entries_blocks(entries).len() ==> (#[trigger] entries_blocks(entries)[j]).command.len()
                > 0,
    decreases entries.len(),
{
    if entries.len() > 0 {
        lemma_loaded_commands_not_empty(entries.drop_last());
        let prev = entries_blocks(entries.drop_last());
        let all = entries_blocks(entries);
        assert forall|j: int| 0 <= j < all.len() implies (#[trigger] all[j]).command.len() > 0 by {
            if j < prev.len() {
                assert(all[j] == prev[j]);
            }
        }
    }
}

/// The entries, in order, of a configuration file that have a non-empty
/// string command.
pub open spec fn usable_entries(entries: Seq<BlockEntryView>) -> Seq<int> {
    Seq::new(entries.len(), |i: int| i).filter(
        |i: int| entries[i].command matches Some(c) && c.len() > 0,
    )
}

proof fn lemma_entries_blocks_rows(entries: Seq<BlockEntryView>, k: int)
    requires
        0 <= k <= entries.len(),
    ensures
        ({
            let rows = Seq::new(k as nat, |i: int| i).filter(
                |i: int| entries[i].command matches Some(c) && c.len() > 0,
            );
            let blocks = entries_blocks(entries.take(k));
            &&& blocks.len() == rows.len()
            &&& forall|j: int|
                0 <= j < rows.len() ==> 0 <= #[trigger] rows[j] < k && blocks[j] == BlockView {
                    command: entries[rows[j]].command->0,
                    interval: match entries[rows[j]].interval {
                        Some(v) => v,
                        None => DEFAULT_INTERVAL,
                    },
                }
        }),
    decreases k,
{
    let f = |i: int| entries[i].command matches Some(c) && c.len() > 0;
    let all = Seq::new(k as nat, |i: int| i);
    reveal_with_fuel(Seq::<_>::filter, 1);
    if k > 0 {
        lemma_entries_blocks_rows(entries, k - 1);
        assert(entries.take(k).drop_last() =~= entries.take(k - 1));
        assert(entries.take(k).last() == entries[k - 1]);
        assert(all.drop_last() =~= Seq::new((k - 1) as nat, |i: int| i));
        assert(all.last() == k - 1);
    } else {
        assert(entries.take(0) =~= Seq::<BlockEntryView>::empty());
        assert(all.filter(f) =~= Seq::<int>::empty());
    }
}

/// A configuration file read as JSON gives its separator when that is a
/// string, and ` | ` otherwise; and one block for each entry of its
/// `blocks` array that has a non-empty string command, in their order, with
/// that command and the entry's interval, or 5 seconds when it has none.
pub proof fn lemma_document_config(doc: ConfigDocumentView)
    ensures
        ({
            let config = config_from_document(Some(doc));
            let entries = match doc.blocks {
                Some(e) => e,
                None => Seq::empty(),
            };
            let rows = usable_entries(entries);
            &&& config.separator == (match doc.separator {
                Some(s) => s,
                None => seq![' ', '|', ' '],
            })
            &&& config.blocks.len() == rows.len()
            &&& forall|j: int|
                0 <= j < rows.len() ==> 0 <= #[trigger] rows[j] < entries.len() && config.blocks[j]
                    == BlockView {
                    command: entries[rows[j]].command->0,
                    interval: match entries[rows[j]].interval {
                        Some(v) => v,
                        None => 5,
                    },
                }
        }),
{
    let entries = match doc.blocks {
        Some(e) => e,
        None => Seq::empty(),
    };
    lemma_entries_blocks_rows(entries, entries.len() as int);
    assert(entries.take(entries.len() as int) =~= entries);
    if doc.blocks is None {
        reveal_with_fuel(Seq::<_>::filter, 1);
        assert(Seq::new(0, |i: int| i) =~= Seq::<int>::empty());
    }
}

/// The default configuration has no blocks and ` | ` between them.
pub proof fn lemma_default_config()
    ensures
        default_config().blocks.len() == 0,
        default_config().separator == seq![' ', '|', ' '],
        config_from_text(None) == default_config(),
{
}

} // verus!
