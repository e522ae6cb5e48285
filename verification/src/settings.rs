//! The settings store: typed settings by id, each listed under one section,
//! filled in with default values where missing.
use vstd::prelude::*;
use vstd::string::StringExecFns;

use crate::text::{parse_i32, parse_i32_spec, same_text};

verus! {

/// The value of a setting. Typed settings keep the text typed for them
/// beside the value that text last gave.
#[derive(Debug)]
pub enum FieldValue {
    Boolean(bool),
    /// The number and the text typed.
    Integer(i32, String),
    /// The IEEE-754 single-precision bit pattern of the number, and the text
    /// typed.
    Float(u32, String),
    /// The text, both typed and given out.
    String(String),
    /// The path and the text typed.
    Path(String, String),
}

impl Clone for FieldValue {
    fn clone(&self) -> (r: Self)
        ensures
            r == *self,
    {
        match self {
            FieldValue::Boolean(b) => FieldValue::Boolean(*b),
            FieldValue::Integer(i, s) => FieldValue::Integer(*i, s.clone()),
            FieldValue::Float(f, s) => FieldValue::Float(*f, s.clone()),
            FieldValue::String(s) => FieldValue::String(s.clone()),
            FieldValue::Path(p, s) => FieldValue::Path(p.clone(), s.clone()),
        }
    }
}

/// A setting: what it is for, and its value.
#[derive(Debug)]
pub struct Field {
    pub description: String,
    pub value: FieldValue,
}

impl Clone for Field {
    fn clone(&self) -> (r: Self)
        ensures
            r == *self,
    {
        Field { description: self.description.clone(), value: self.value.clone() }
    }
}

/// The value after the text `input` was typed into a setting of value `v`:
/// a number takes the number the text writes, if it writes one; a text
/// takes the text; a path takes the text as path. A switch has no text,
/// and the number of a floating-point setting is read from its text apart.
pub open spec fn input_applied(v: FieldValue, input: String) -> FieldValue {
    match v {
        FieldValue::Boolean(b) => FieldValue::Boolean(b),
        FieldValue::Integer(i, _) => FieldValue::Integer(
            match parse_i32_spec(input@) {
                Some(x) => x,
                None => i,
            },
            input,
        ),
        FieldValue::Float(f, _) => FieldValue::Float(f, input),
        FieldValue::String(_) => FieldValue::String(input),
        FieldValue::Path(_, _) => FieldValue::Path(input, input),
    }
}

impl Field {
    /// A setting described by `description` with value `value`.
    pub fn new(description: String, value: FieldValue) -> (f: Field)
        ensures
            f.description == description,
            f.value == value,
    {
        Field { description, value }
    }

    /// The switch's state, if the setting is a switch.
    pub fn as_bool(&self) -> (r: Option<bool>)
        ensures
            r == match self.value {
                FieldValue::Boolean(b) => Some(b),
                _ => None,
            },
    {
        match &self.value {
            FieldValue::Boolean(b) => Some(*b),
            _ => None,
        }
    }

    /// The number, if the setting is an integer.
    pub fn as_int(&self) -> (r: Option<i32>)
        ensures
            r == match self.value {
                FieldValue::Integer(i, _) => Some(i),
                _ => None,
            },
    {
        match &self.value {
            FieldValue::Integer(i, _) => Some(*i),
            _ => None,
        }
    }

    /// The bit pattern of the number, if the setting is a floating-point
    /// number.
    pub fn as_float_bits(&self) -> (r: Option<u32>)
        ensures
            r == match self.value {
                FieldValue::Float(f, _) => Some(f),
                _ => None,
            },
    {
        match &self.value {
            FieldValue::Float(f, _) => Some(*f),
            _ => None,
        }
    }

    /// The text, if the setting is a text.
    pub fn as_text(&self) -> (r: Option<&String>)
        ensures
            r == match self.value {
                FieldValue::String(s) => Some(&s),
                _ => None,
            },
    {
        match &self.value {
            FieldValue::String(s) => Some(s),
            _ => None,
        }
    }

    /// The path, if the setting is a path.
    pub fn as_path(&self) -> (r: Option<&String>)
        ensures
            r == match self.value {
                FieldValue::Path(p, _) => Some(&p),
                _ => None,
            },
    {
        match &self.value {
            FieldValue::Path(p, _) => Some(p),
            _ => None,
        }
    }

    /// Takes the text `input` typed into the setting.
    pub fn set_input(&mut self, input: String)
        ensures
            final(self).description == old(self).description,
            final(self).value == input_applied(old(self).value, input),
    {
        let v = match &self.value {
            FieldValue::Boolean(b) => FieldValue::Boolean(*b),
            FieldValue::Integer(i, _) => {
                let x = match parse_i32(input.as_str()) {
                    Some(x) => x,
                    None => *i,
                };
                FieldValue::Integer(x, input)
            },
            FieldValue::Float(f, _) => FieldValue::Float(*f, input),
            FieldValue::String(_) => FieldValue::String(input),
            FieldValue::Path(_, _) => FieldValue::Path(input.clone(), input),
        };
        self.value = v;
    }

    /// Sets a switch; a setting of another kind stays as it is.
    pub fn set_bool(&mut self, b: bool)
        ensures
            final(self).description == old(self).description,
            final(self).value == match old(self).value {
                FieldValue::Boolean(_) => FieldValue::Boolean(b),
                v => v,
            },
    {
        match self.value {
            FieldValue::Boolean(_) => {
                self.value = FieldValue::Boolean(b);
            },
            _ => {},
        }
    }

    /// Sets the number of a floating-point setting, by its bit pattern,
    /// keeping its text; a setting of another kind stays as it is.
    pub fn set_float_bits(&mut self, bits: u32)
        ensures
            final(self).description == old(self).description,
            final(self).value == match old(self).value {
                FieldValue::Float(_, s) => FieldValue::Float(bits, s),
                v => v,
            },
    {
        let v = match &self.value {
            FieldValue::Float(_, s) => FieldValue::Float(bits, s.clone()),
            other => other.clone(),
        };
        self.value = v;
    }
}

/// A kind of value that a setting can be read as.
pub trait FieldRead: Sized {
    /// The value read from `v`, if `v` is of this kind.
    spec fn read_spec(v: FieldValue) -> Option<Self>;

    /// The value given out where a setting is missing or of another kind.
    spec fn absent_spec() -> Self;

    /// The value read from `v`, if `v` is of this kind.
    fn read(v: &FieldValue) -> (r: Option<Self>)
        ensures
            r == Self::read_spec(*v),
    ;

    /// The value given out where a setting is missing or of another kind.
    fn absent() -> (r: Self)
        ensures
            r == Self::absent_spec(),
    ;
}

impl FieldRead for bool {
    open spec fn read_spec(v: FieldValue) -> Option<bool> {
        match v {
            FieldValue::Boolean(b) => Some(b),
            _ => None,
        }
    }

    open spec fn absent_spec() -> bool {
        false
    }

    fn read(v: &FieldValue) -> (r: Option<bool>) {
        match v {
            FieldValue::Boolean(b) => Some(*b),
            _ => None,
        }
    }

    fn absent() -> (r: bool) {
        false
    }
}

impl FieldRead for i32 {
    open spec fn read_spec(v: FieldValue) -> Option<i32> {
        match v {
            FieldValue::Integer(i, _) => Some(i),
            _ => None,
        }
    }

    open spec fn absent_spec() -> i32 {
        0
    }

    fn read(v: &FieldValue) -> (r: Option<i32>) {
        match v {
            FieldValue::Integer(i, _) => Some(*i),
            _ => None,
        }
    }

    fn absent() -> (r: i32) {
        0
    }
}

/// The sections the settings are listed under.
#[derive(Clone, Copy, Debug, PartialEq, Eq, Structural)]
pub enum Section {
    General,
    Splitter,
    Mapper,
    Foresight,
}

/// The first place from `k` on in `s` of the setting with id `name`.
pub open spec fn key_index(s: Seq<(String, Field)>, name: Seq<char>, k: int) -> Option<int>
    decreases s.len() - k,
{
    if k >= s.len() {
        None
    } else if s[k].0@ == name {
        Some(k)
    } else {
        key_index(s, name, k + 1)
    }
}

/// Where the setting `name` is found from place `k` on, it is there and
/// not before; where it is not, it is nowhere from `k` on.
pub proof fn lemma_key_index(s: Seq<(String, Field)>, name: Seq<char>, k: int)
    requires
        0 <= k,
    ensures
        match key_index(s, name, k) {
            Some(i) => k <= i < s.len() && s[i].0@ == name && forall|j: int| k <= j < i ==> s[j].0@ != name,
            None => forall|j: int| k <= j < s.len() ==> s[j].0@ != name,
        },
    decreases s.len() - k,
{
    if k < s.len() && s[k].0@ != name {
        lemma_key_index(s, name, k + 1);
    }
}

/// The place of the setting `name` after one more setting is added.
pub proof fn lemma_key_index_push(s: Seq<(String, Field)>, e: (String, Field), name: Seq<char>)
    ensures
        key_index(s.push(e), name, 0) == match key_index(s, name, 0) {
            Some(i) => Some(i),
            None => if e.0@ == name {
                Some(s.len() as int)
            } else {
                None
            },
        },
{
    lemma_key_index(s, name, 0);
    lemma_key_index(s.push(e), name, 0);
    let t = s.push(e);
    match key_index(s, name, 0) {
        Some(i) => {
            assert(t[i] == s[i]);
            match key_index(t, name, 0) {
                Some(j) => {
                    if j < i {
                        assert(t[j] == s[j]);
                    }
                    if i < j {
                        assert(t[i].0@ == name);
                    }
                },
                None => {
                    assert(t[i].0@ != name);
                },
            }
        },
        None => {
            match key_index(t, name, 0) {
                Some(j) => {
                    if j < s.len() {
                        assert(t[j] == s[j]);
                    }
                },
                None => {
                    assert(t[s.len() as int] == e);
                },
            }
        },
    }
}

/// The settings: each setting by its id, and the ids listed under each
/// section, in order.
#[derive(Debug)]
pub struct SettingsWindow {
    pub setting_hash: Vec<(String, Field)>,
    pub general: Vec<String>,
    pub splitter: Vec<String>,
    pub mapper: Vec<String>,
    pub foresight: Vec<String>,
}

/// The default value of each setting, in the order they are added, as
/// (section, id, setting).
pub open spec fn default_bool(e: (Section, String, Field), sec: Section, id: Seq<char>, desc: Seq<char>, b: bool) -> bool {
    e.0 == sec && e.1@ == id && e.2.description@ == desc && e.2.value == FieldValue::Boolean(b)
}

/// The default integer setting `id`.
pub open spec fn default_int(
    e: (Section, String, Field),
    sec: Section,
    id: Seq<char>,
    desc: Seq<char>,
    i: i32,
    text: Seq<char>,
) -> bool {
    &&& e.0 == sec
    &&& e.1@ == id
    &&& e.2.description@ == desc
    &&& e.2.value matches FieldValue::Integer(x, t)
    &&& x == i
    &&& t@ == text
}

/// The default floating-point setting `id`.
pub open spec fn default_float(
    e: (Section, String, Field),
    sec: Section,
    id: Seq<char>,
    desc: Seq<char>,
    bits: u32,
    text: Seq<char>,
) -> bool {
    &&& e.0 == sec
    &&& e.1@ == id
    &&& e.2.description@ == desc
    &&& e.2.value matches FieldValue::Float(x, t)
    &&& x == bits
    &&& t@ == text
}

/// The default path setting `id`.
pub open spec fn default_path(e: (Section, String, Field), sec: Section, id: Seq<char>, desc: Seq<char>, p: Seq<char>) -> bool {
    &&& e.0 == sec
    &&& e.1@ == id
    &&& e.2.description@ == desc
    &&& e.2.value matches FieldValue::Path(x, t)
    &&& x@ == p
    &&& t@ == p
}

/// The table of default settings, with the logs folder `logs_path`.
pub open spec fn default_table(t: Seq<(Section, String, Field)>, logs_path: Seq<char>) -> bool {
    &&& t.len() == 35
    &&& default_bool(t[0], Section::General, "automatic_loading"@, "Automatic Loading of Runs"@, true)
    &&& default_bool(t[1], Section::General, "automatic_saving"@, "Automatic Saving of Runs"@, false)
    &&& default_bool(t[2], Section::General, "show_real_timer"@, "Show real timer   Warning: this timer may not be accurate. Use the in game timer for that."@, false)
    &&& default_bool(t[3], Section::General, "show_game_splitter"@, "Show game splitter"@, false)
    &&& default_bool(t[4], Section::General, "show_run_splitter"@, "Show run splitter"@, true)
    &&& default_bool(t[5], Section::General, "show_run_counter"@, "Show run counter"@, true)
    &&& default_float(t[6], Section::Splitter, "window_transparency"@, "LiveWindow Transparency"@, 0x3f19999a, "0.6f"@)
    &&& default_path(t[7], Section::Splitter, "logs_path"@, "Path to logs folder: "@, logs_path)
    &&& default_bool(t[8], Section::Splitter, "compare_record"@, "Compare to saved record"@, true)
    &&& default_bool(t[9], Section::Splitter, "compare_best_splits"@, "Compare to best splits"@, true)
    &&& default_int(t[10], Section::Splitter, "run_splitter_length"@, "Run Splitter max length"@, 100, "100"@)
    &&& default_int(t[11], Section::Splitter, "game_splitter_length"@, "Game Splitter max length"@, 5, "5"@)
    &&& default_float(t[12], Section::Splitter, "x_position"@, "X position"@, 0x0, "0"@)
    &&& default_float(t[13], Section::Splitter, "y_position"@, "Y position"@, 0x437a0000, "250"@)
    &&& default_float(t[14], Section::Splitter, "x_size"@, "X size    "@, 0x437a0000, "250"@)
    &&& default_bool(t[15], Section::Mapper, "show_mapper"@, "Show mapper in live splitter"@, true)
    &&& default_bool(t[16], Section::Mapper, "show_objectives"@, "Show objectives items in live splitter"@, true)
    &&& default_bool(t[17], Section::Mapper, "show_code_guess"@, "Show code guess"@, false)
    &&& default_int(t[18], Section::Mapper, "code_guess_line_count"@, "Code guess number of lines: "@, 3, "3"@)
    &&& default_int(t[19], Section::Mapper, "code_guess_word_count"@, "Code guess number of words per line: "@, 7, "7"@)
    &&& default_bool(t[20], Section::Foresight, "show_foresight"@, "Show Foresight in live splitter"@, true)
    &&& default_bool(t[21], Section::Foresight, "seed_indexer_show_resources"@, "Show resources in foresight"@, true)
    &&& default_bool(t[22], Section::Foresight, "seed_indexer_show_consumables"@, "Show consumables in foresight"@, true)
    &&& default_bool(t[23], Section::Foresight, "seed_indexer_show_artifacts"@, "Show artifacts in foresight"@, false)
    &&& default_bool(t[24], Section::Foresight, "seed_indexer_show_gather_small_items"@, "Show GatherSmallItem in foresight"@, true)
    &&& default_bool(t[25], Section::Foresight, "seed_indexer_show_fog_turbine"@, "Show FogTurbine in foresight"@, true)
    &&& default_bool(t[26], Section::Foresight, "seed_indexer_show_cell"@, "Show Cell in foresight"@, true)
    &&& default_bool(t[27], Section::Foresight, "seed_indexer_show_colored_key"@, "Show ColoredKey in foresight"@, true)
    &&& default_bool(t[28], Section::Foresight, "seed_indexer_show_bulkhead_key"@, "Show BulkKey in foresight"@, true)
    &&& default_bool(t[29], Section::Foresight, "seed_indexer_show_terminal_uplink"@, "Show TerminalUplink in foresight"@, true)
    &&& default_bool(t[30], Section::Foresight, "seed_indexer_show_retrieve_big_items"@, "Show RetrieveBigItems in foresight"@, true)
    &&& default_bool(t[31], Section::Foresight, "seed_indexer_show_special_terminal_command"@, "Show SpecialTerminalCommand in foresight"@, true)
    &&& default_bool(t[32], Section::Foresight, "seed_indexer_show_hsu"@, "Show HSU_FindTakeSample in foresight"@, true)
    &&& default_bool(t[33], Section::Foresight, "seed_indexer_show_power_cell_distribution"@, "Show PowerCellDistribution in foresight"@, true)
    &&& default_int(t[34], Section::Foresight, "seed_indexer_length"@, "Size of Foresight"@, 10, "10"@)}

fn default_entry(sec: Section, id: &str, desc: &str, value: FieldValue) -> (e: (Section, String, Field))
    ensures
        e.0 == sec,
        e.1@ == id@,
        e.2.description@ == desc@,
        e.2.value == value,
{
    (sec, String::from_str(id), Field::new(String::from_str(desc), value))
}

/// The default settings, with the logs folder `logs_path`, as (section, id,
/// setting), in the order they are added.
pub fn default_settings(logs_path: String) -> (t: Vec<(Section, String, Field)>)
    ensures
        default_table(t@, logs_path@),
{
    let mut t: Vec<(Section, String, Field)> = Vec::new();
    t.push(default_entry(Section::General, "automatic_loading", "Automatic Loading of Runs", FieldValue::Boolean(true)));
    t.push(default_entry(Section::General, "automatic_saving", "Automatic Saving of Runs", FieldValue::Boolean(false)));
    t.push(default_entry(Section::General, "show_real_timer", "Show real timer   Warning: this timer may not be accurate. Use the in game timer for that.", FieldValue::Boolean(false)));
    t.push(default_entry(Section::General, "show_game_splitter", "Show game splitter", FieldValue::Boolean(false)));
    t.push(default_entry(Section::General, "show_run_splitter", "Show run splitter", FieldValue::Boolean(true)));
    t.push(default_entry(Section::General, "show_run_counter", "Show run counter", FieldValue::Boolean(true)));
    t.push(default_entry(Section::Splitter, "window_transparency", "LiveWindow Transparency", FieldValue::Float(0x3f19999a, String::from_str("0.6f"))));
    t.push(default_entry(Section::Splitter, "logs_path", "Path to logs folder: ", FieldValue::Path(logs_path.clone(), logs_path.clone())));
    t.push(default_entry(Section::Splitter, "compare_record", "Compare to saved record", FieldValue::Boolean(true)));
    t.push(default_entry(Section::Splitter, "compare_best_splits", "Compare to best splits", FieldValue::Boolean(true)));
    t.push(default_entry(Section::Splitter, "run_splitter_length", "Run Splitter max length", FieldValue::Integer(100, String::from_str("100"))));
    t.push(default_entry(Section::Splitter, "game_splitter_length", "Game Splitter max length", FieldValue::Integer(5, String::from_str("5"))));
    t.push(default_entry(Section::Splitter, "x_position", "X position", FieldValue::Float(0x0, String::from_str("0"))));
    t.push(default_entry(Section::Splitter, "y_position", "Y position", FieldValue::Float(0x437a0000, String::from_str("250"))));
    t.push(default_entry(Section::Splitter, "x_size", "X size    ", FieldValue::Float(0x437a0000, String::from_str("250"))));
    t.push(default_entry(Section::Mapper, "show_mapper", "Show mapper in live splitter", FieldValue::Boolean(true)));
    t.push(default_entry(Section::Mapper, "show_objectives", "Show objectives items in live splitter", FieldValue::Boolean(true)));
    t.push(default_entry(Section::Mapper, "show_code_guess", "Show code guess", FieldValue::Boolean(false)));
    t.push(default_entry(Section::Mapper, "code_guess_line_count", "Code guess number of lines: ", FieldValue::Integer(3, String::from_str("3"))));
    t.push(default_entry(Section::Mapper, "code_guess_word_count", "Code guess number of words per line: ", FieldValue::Integer(7, String::from_str("7"))));
    t.push(default_entry(Section::Foresight, "show_foresight", "Show Foresight in live splitter", FieldValue::Boolean(true)));
    t.push(default_entry(Section::Foresight, "seed_indexer_show_resources", "Show resources in foresight", FieldValue::Boolean(true)));
    t.push(default_entry(Section::Foresight, "seed_indexer_show_consumables", "Show consumables in foresight", FieldValue::Boolean(true)));
    t.push(default_entry(Section::Foresight, "seed_indexer_show_artifacts", "Show artifacts in foresight", FieldValue::Boolean(false)));
    t.push(default_entry(Section::Foresight, "seed_indexer_show_gather_small_items", "Show GatherSmallItem in foresight", FieldValue::Boolean(true)));
    t.push(default_entry(Section::Foresight, "seed_indexer_show_fog_turbine", "Show FogTurbine in foresight", FieldValue::Boolean(true)));
    t.push(default_entry(Section::Foresight, "seed_indexer_show_cell", "Show Cell in foresight", FieldValue::Boolean(true)));
    t.push(default_entry(Section::Foresight, "seed_indexer_show_colored_key", "Show ColoredKey in foresight", FieldValue::Boolean(true)));
    t.push(default_entry(Section::Foresight, "seed_indexer_show_bulkhead_key", "Show BulkKey in foresight", FieldValue::Boolean(true)));
    t.push(default_entry(Section::Foresight, "seed_indexer_show_terminal_uplink", "Show TerminalUplink in foresight", FieldValue::Boolean(true)));
    t.push(default_entry(Section::Foresight, "seed_indexer_show_retrieve_big_items", "Show RetrieveBigItems in foresight", FieldValue::Boolean(true)));
    t.push(default_entry(Section::Foresight, "seed_indexer_show_special_terminal_command", "Show SpecialTerminalCommand in foresight", FieldValue::Boolean(true)));
    t.push(default_entry(Section::Foresight, "seed_indexer_show_hsu", "Show HSU_FindTakeSample in foresight", FieldValue::Boolean(true)));
    t.push(default_entry(Section::Foresight, "seed_indexer_show_power_cell_distribution", "Show PowerCellDistribution in foresight", FieldValue::Boolean(true)));
    t.push(default_entry(Section::Foresight, "seed_indexer_length", "Size of Foresight", FieldValue::Integer(10, String::from_str("10"))));    t
}

/// Whether entry `k` of `defs` adds a setting to `w`: no setting with its id
/// is there nor comes earlier in `defs`.
pub open spec fn adds_setting(w: SettingsWindow, defs: Seq<(Section, String, Field)>, k: int) -> bool {
    &&& w.setting(defs[k].1@) is None
    &&& forall|j: int| 0 <= j < k ==> defs[j].1@ != defs[k].1@
}

/// The ids that the first `n` entries of `defs` add to the section `sec` of
/// `w`, in order.
pub open spec fn added_ids(w: SettingsWindow, defs: Seq<(Section, String, Field)>, sec: Section, n: int) -> Seq<String>
    decreases n,
{
    if n <= 0 {
        Seq::empty()
    } else {
        added_ids(w, defs, sec, n - 1) + if defs[n - 1].0 == sec && adds_setting(w, defs, n - 1) {
            seq![defs[n - 1].1]
        } else {
            Seq::empty()
        }
    }
}

/// The first entry of `defs` with id `name`, if any.
pub open spec fn first_default(defs: Seq<(Section, String, Field)>, name: Seq<char>, n: int) -> Option<int>
    decreases n,
{
    if n <= 0 {
        None
    } else {
        match first_default(defs, name, n - 1) {
            Some(k) => Some(k),
            None => if defs[n - 1].1@ == name {
                Some(n - 1)
            } else {
                None
            },
        }
    }
}

/// The setting `name` of `w` after the first `n` entries of `defs` were
/// added: the one `w` has, else the first entry for it.
pub open spec fn setting_after(w: SettingsWindow, defs: Seq<(Section, String, Field)>, name: Seq<char>, n: int) -> Option<
    Field,
> {
    match w.setting(name) {
        Some(f) => Some(f),
        None => match first_default(defs, name, n) {
            Some(k) => Some(defs[k].2),
            None => None,
        },
    }
}

proof fn lemma_first_default(defs: Seq<(Section, String, Field)>, name: Seq<char>, n: int)
    requires
        0 <= n <= defs.len(),
    ensures
        match first_default(defs, name, n) {
            Some(k) => 0 <= k < n && defs[k].1@ == name && forall|j: int| 0 <= j < k ==> defs[j].1@ != name,
            None => forall|j: int| 0 <= j < n ==> defs[j].1@ != name,
        },
    decreases n,
{
    if n > 0 {
        lemma_first_default(defs, name, n - 1);
    }
}

impl SettingsWindow {
    /// The setting with id `name`, if any.
    pub open spec fn setting(&self, name: Seq<char>) -> Option<Field> {
        match key_index(self.setting_hash@, name, 0) {
            Some(i) => Some(self.setting_hash@[i].1),
            None => None,
        }
    }

    /// The ids listed under `sec`.
    pub open spec fn section_ids(&self, sec: Section) -> Seq<String> {
        match sec {
            Section::General => self.general@,
            Section::Splitter => self.splitter@,
            Section::Mapper => self.mapper@,
            Section::Foresight => self.foresight@,
        }
    }

    /// No two settings have one id.
    pub open spec fn wf(&self) -> bool {
        forall|i: int, j: int|
            0 <= i < j < self.setting_hash@.len() ==> (#[trigger] self.setting_hash@[i]).0@
                != (#[trigger] self.setting_hash@[j]).0@
    }

    /// Whether no two settings have one id.
    pub fn ids_unique(&self) -> (b: bool)
        ensures
            b == self.wf(),
    {
        let n = self.setting_hash.len();
        let mut i: usize = 0;
        while i < n
            invariant
                n == self.setting_hash@.len(),
                i <= n,
                forall|a: int, b: int|
                    0 <= a < b < n && a < i ==> (#[trigger] self.setting_hash@[a]).0@
                        != (#[trigger] self.setting_hash@[b]).0@,
            decreases n - i,
        {
            let mut j: usize = i + 1;
            while j < n
                invariant
                    n == self.setting_hash@.len(),
                    i < n,
                    i < j <= n,
                    forall|a: int, b: int|
                        0 <= a < b < n && a < i ==> (#[trigger] self.setting_hash@[a]).0@
                            != (#[trigger] self.setting_hash@[b]).0@,
                    forall|b: int| i < b < j ==> self.setting_hash@[i as int].0@ != (#[trigger] self.setting_hash@[b]).0@,
                decreases n - j,
            {
                if self.setting_hash[i].0 == self.setting_hash[j].0 {
                    return false;
                }
                j += 1;
            }
            i += 1;
        }
        true
    }

    /// No settings at all.
    pub fn empty() -> (w: SettingsWindow)
        ensures
            w.wf(),
            w.setting_hash@.len() == 0,
            forall|sec: Section| (#[trigger] w.section_ids(sec)).len() == 0,
    {
        SettingsWindow {
            setting_hash: Vec::new(),
            general: Vec::new(),
            splitter: Vec::new(),
            mapper: Vec::new(),
            foresight: Vec::new(),
        }
    }

    fn find(&self, name: &str) -> (r: Option<usize>)
        ensures
            match r {
                Some(i) => key_index(self.setting_hash@, name@, 0) == Some(i as int) && i < self.setting_hash@.len(),
                None => key_index(self.setting_hash@, name@, 0) is None,
            },
    {
        proof {
            lemma_key_index(self.setting_hash@, name@, 0);
        }
        let mut k: usize = 0;
        while k < self.setting_hash.len()
            invariant
                k <= self.setting_hash@.len(),
                key_index(self.setting_hash@, name@, 0) == key_index(self.setting_hash@, name@, k as int),
            decreases self.setting_hash.len() - k,
        {
            if same_text(self.setting_hash[k].0.as_str(), name) {
                return Some(k);
            }
            k += 1;
        }
        None
    }

    /// Adds the setting `id` under `sec`, unless a setting with that id is
    /// there already, in which case nothing changes.
    pub fn add_to(&mut self, sec: Section, id: String, field: Field)
        requires
            old(self).wf(),
        ensures
            final(self).wf(),
            old(self).setting(id@) is Some ==> final(self).setting_hash@ == old(self).setting_hash@ && forall|
                s: Section,
            | #[trigger] final(self).section_ids(s) == old(self).section_ids(s),
            old(self).setting(id@) is None ==> final(self).setting_hash@ == old(self).setting_hash@.push((id, field))
                && forall|s: Section|
                #[trigger] final(self).section_ids(s) == if s == sec {
                    old(self).section_ids(s).push(id)
                } else {
                    old(self).section_ids(s)
                },
            forall|name: Seq<char>|
                #[trigger] final(self).setting(name) == if old(self).setting(id@) is None && name == id@ {
                    Some(field)
                } else {
                    old(self).setting(name)
                },
    {
        match self.find(id.as_str()) {
            Some(_) => {},
            None => {
                let ghost before = *self;
                proof {
                    lemma_key_index(before.setting_hash@, id@, 0);
                }
                match sec {
                    Section::General => self.general.push(id.clone()),
                    Section::Splitter => self.splitter.push(id.clone()),
                    Section::Mapper => self.mapper.push(id.clone()),
                    Section::Foresight => self.foresight.push(id.clone()),
                }
                let ghost e = (id, field);
                self.setting_hash.push((id, field));
                proof {
                    assert(self.setting_hash@ == before.setting_hash@.push(e));
                    assert forall|name: Seq<char>| #[trigger] self.setting(name) == if name == e.0@ {
                        Some(e.1)
                    } else {
                        before.setting(name)
                    } by {
                        lemma_key_index_push(before.setting_hash@, e, name);
                        match key_index(before.setting_hash@, name, 0) {
                            Some(i) => {
                                lemma_key_index(before.setting_hash@, name, 0);
                                assert(self.setting_hash@[i] == before.setting_hash@[i]);
                            },
                            None => {
                                assert(self.setting_hash@[before.setting_hash@.len() as int] == e);
                            },
                        }
                    }
                    assert forall|i: int, j: int|
                        0 <= i < j < self.setting_hash@.len() implies (#[trigger] self.setting_hash@[i]).0@
                        != (#[trigger] self.setting_hash@[j]).0@ by {
                        if j == before.setting_hash@.len() {
                            assert(self.setting_hash@[i] == before.setting_hash@[i]);
                        } else {
                            assert(self.setting_hash@[i] == before.setting_hash@[i]);
                            assert(self.setting_hash@[j] == before.setting_hash@[j]);
                        }
                    }
                }
            },
        }
    }

    /// Adds the setting `id` to the general section, unless it is there.
    pub fn add_to_general(&mut self, id: String, field: Field)
        requires
            old(self).wf(),
        ensures
            final(self).wf(),
            old(self).setting(id@) is Some ==> final(self).setting_hash@ == old(self).setting_hash@ && forall|
                s: Section,
            | #[trigger] final(self).section_ids(s) == old(self).section_ids(s),
            old(self).setting(id@) is None ==> final(self).setting_hash@ == old(self).setting_hash@.push((id, field))
                && forall|s: Section|
                #[trigger] final(self).section_ids(s) == if s == Section::General {
                    old(self).section_ids(s).push(id)
                } else {
                    old(self).section_ids(s)
                },
    {
        self.add_to(Section::General, id, field)
    }

    /// Adds the setting `id` to the splitter section, unless it is there.
    pub fn add_to_splitter(&mut self, id: String, field: Field)
        requires
            old(self).wf(),
        ensures
            final(self).wf(),
            old(self).setting(id@) is Some ==> final(self).setting_hash@ == old(self).setting_hash@ && forall|
                s: Section,
            | #[trigger] final(self).section_ids(s) == old(self).section_ids(s),
            old(self).setting(id@) is None ==> final(self).setting_hash@ == old(self).setting_hash@.push((id, field))
                && forall|s: Section|
                #[trigger] final(self).section_ids(s) == if s == Section::Splitter {
                    old(self).section_ids(s).push(id)
                } else {
                    old(self).section_ids(s)
                },
    {
        self.add_to(Section::Splitter, id, field)
    }

    /// Adds the setting `id` to the mapper section, unless it is there.
    pub fn add_to_mapper(&mut self, id: String, field: Field)
        requires
            old(self).wf(),
        ensures
            final(self).wf(),
            old(self).setting(id@) is Some ==> final(self).setting_hash@ == old(self).setting_hash@ && forall|
                s: Section,
            | #[trigger] final(self).section_ids(s) == old(self).section_ids(s),
            old(self).setting(id@) is None ==> final(self).setting_hash@ == old(self).setting_hash@.push((id, field))
                && forall|s: Section|
                #[trigger] final(self).section_ids(s) == if s == Section::Mapper {
                    old(self).section_ids(s).push(id)
                } else {
                    old(self).section_ids(s)
                },
    {
        self.add_to(Section::Mapper, id, field)
    }

    /// Adds the setting `id` to the foresight section, unless it is there.
    pub fn add_to_foresight(&mut self, id: String, field: Field)
        requires
            old(self).wf(),
        ensures
            final(self).wf(),
            old(self).setting(id@) is Some ==> final(self).setting_hash@ == old(self).setting_hash@ && forall|
                s: Section,
            | #[trigger] final(self).section_ids(s) == old(self).section_ids(s),
            old(self).setting(id@) is None ==> final(self).setting_hash@ == old(self).setting_hash@.push((id, field))
                && forall|s: Section|
                #[trigger] final(self).section_ids(s) == if s == Section::Foresight {
                    old(self).section_ids(s).push(id)
                } else {
                    old(self).section_ids(s)
                },
    {
        self.add_to(Section::Foresight, id, field)
    }

    /// Adds each entry of `defs` in turn, unless a setting with its id is
    /// there by then.
    pub fn add_entries(&mut self, defs: &Vec<(Section, String, Field)>)
        requires
            old(self).wf(),
        ensures
            final(self).wf(),
            forall|name: Seq<char>|
                #[trigger] final(self).setting(name) == setting_after(*old(self), defs@, name, defs@.len() as int),
            forall|sec: Section|
                #[trigger] final(self).section_ids(sec) == old(self).section_ids(sec) + added_ids(
                    *old(self),
                    defs@,
                    sec,
                    defs@.len() as int,
                ),
    {
        let ghost w0 = *self;
        let mut k: usize = 0;
        proof {
            assert forall|sec: Section| #[trigger] self.section_ids(sec) == w0.section_ids(sec) + added_ids(w0, defs@, sec, 0) by {
                assert(w0.section_ids(sec) + Seq::<String>::empty() =~= w0.section_ids(sec));
            }
        }
        while k < defs.len()
            invariant
                self.wf(),
                w0.wf(),
                k <= defs@.len(),
                forall|name: Seq<char>| #[trigger] self.setting(name) == setting_after(w0, defs@, name, k as int),
                forall|sec: Section|
                    #[trigger] self.section_ids(sec) == w0.section_ids(sec) + added_ids(w0, defs@, sec, k as int),
            decreases defs.len() - k,
        {
            let ghost before = *self;
            let e = &defs[k];
            proof {
                lemma_first_default(defs@, e.1@, k as int);
                lemma_first_default(defs@, e.1@, k + 1);
                assert(before.setting(e.1@) == setting_after(w0, defs@, e.1@, k as int));
                assert((before.setting(e.1@) is None) == adds_setting(w0, defs@, k as int));
            }
            self.add_to(e.0, e.1.clone(), e.2.clone());
            proof {
                assert forall|name: Seq<char>| #[trigger] self.setting(name) == setting_after(w0, defs@, name, k + 1) by {
                    lemma_first_default(defs@, name, k as int);
                    lemma_first_default(defs@, name, k + 1);
                    assert(before.setting(name) == setting_after(w0, defs@, name, k as int));
                }
                assert forall|sec: Section| #[trigger] self.section_ids(sec) == w0.section_ids(sec) + added_ids(
                    w0,
                    defs@,
                    sec,
                    k + 1,
                ) by {
                    assert(w0.section_ids(sec) + added_ids(w0, defs@, sec, k + 1) =~= w0.section_ids(sec) + added_ids(
                        w0,
                        defs@,
                        sec,
                        k as int,
                    ) + if defs@[k as int].0 == sec && adds_setting(w0, defs@, k as int) {
                        seq![defs@[k as int].1]
                    } else {
                        Seq::empty()
                    });
                }
            }
            k += 1;
        }
    }

    /// Adds every default setting missing, with the logs folder
    /// `logs_path`; the settings there keep their values. A second call
    /// changes nothing: see `lemma_add_all_idempotent`.
    pub fn add_all(&mut self, logs_path: String)
        requires
            old(self).wf(),
        ensures
            final(self).wf(),
            added_all(*old(self), *final(self), logs_path@),
    {
        let defs = default_settings(logs_path);
        self.add_entries(&defs);
    }

    /// The default settings, with the logs folder `logs_path`.
    pub fn with_defaults(logs_path: String) -> (w: SettingsWindow)
        ensures
            w.wf(),
            exists|defs: Seq<(Section, String, Field)>|
                {
                    &&& default_table(defs, logs_path@)
                    &&& forall|name: Seq<char>|
                        #[trigger] w.setting(name) == match first_default(defs, name, defs.len() as int) {
                            Some(k) => Some(defs[k].2),
                            None => None,
                        }
                },
    {
        let mut w = SettingsWindow::empty();
        w.add_all(logs_path);
        w
    }

    /// The setting `field_name` read as a `V`, if it is there and of that
    /// kind.
    pub fn get<V: FieldRead>(&self, field_name: &str) -> (r: Option<V>)
        ensures
            r == match self.setting(field_name@) {
                Some(f) => V::read_spec(f.value),
                None => None,
            },
    {
        match self.find(field_name) {
            Some(i) => V::read(&self.setting_hash[i].1.value),
            None => None,
        }
    }

    /// The integer setting `field_name` read as a length: zero if it is
    /// missing, not an integer, or negative.
    pub fn get_length(&self, field_name: &str) -> (r: usize)
        ensures
            r == length_or(*self, field_name@),
    {
        let n = self.get_def::<i32>(field_name);
        if n < 0 {
            0
        } else {
            n as usize
        }
    }

    /// The setting `field_name` read as a `V`; the kind's fallback value if
    /// it is missing or of another kind.
    pub fn get_def<V: FieldRead>(&self, field_name: &str) -> (r: V)
        ensures
            r == match self.setting(field_name@) {
                Some(f) => match V::read_spec(f.value) {
                    Some(v) => v,
                    None => V::absent_spec(),
                },
                None => V::absent_spec(),
            },
    {
        match self.get::<V>(field_name) {
            Some(v) => v,
            None => V::absent(),
        }
    }

    /// The path of the setting `field_name`, if it is there and a path.
    pub fn get_path(&self, field_name: &str) -> (r: Option<&String>)
        ensures
            r == match self.setting(field_name@) {
                Some(f) => match f.value {
                    FieldValue::Path(p, _) => Some(&p),
                    _ => None,
                },
                None => None,
            },
    {
        match self.find(field_name) {
            Some(i) => self.setting_hash[i].1.as_path(),
            None => None,
        }
    }

    /// The text of the setting `field_name`, if it is there and a text.
    pub fn get_text(&self, field_name: &str) -> (r: Option<&String>)
        ensures
            r == match self.setting(field_name@) {
                Some(f) => match f.value {
                    FieldValue::String(s) => Some(&s),
                    _ => None,
                },
                None => None,
            },
    {
        match self.find(field_name) {
            Some(i) => self.setting_hash[i].1.as_text(),
            None => None,
        }
    }

    /// The bit pattern of the floating-point setting `field_name`, if it is
    /// there and a floating-point number.
    pub fn get_float_bits(&self, field_name: &str) -> (r: Option<u32>)
        ensures
            r == match self.setting(field_name@) {
                Some(f) => match f.value {
                    FieldValue::Float(b, _) => Some(b),
                    _ => None,
                },
                None => None,
            },
    {
        match self.find(field_name) {
            Some(i) => self.setting_hash[i].1.as_float_bits(),
            None => None,
        }
    }

    /// Takes the text `input` typed into the setting `field_name`; nothing
    /// changes if there is no such setting.
    pub fn set_input(&mut self, field_name: &str, input: String)
        requires
            old(self).wf(),
        ensures
            final(self).wf(),
            forall|sec: Section| #[trigger] final(self).section_ids(sec) == old(self).section_ids(sec),
            forall|name: Seq<char>|
                #[trigger] final(self).setting(name) == if name == field_name@ {
                    match old(self).setting(name) {
                        Some(f) => Some(Field { value: input_applied(f.value, input), ..f }),
                        None => None,
                    }
                } else {
                    old(self).setting(name)
                },
    {
        match self.find(field_name) {
            Some(i) => {
                let ghost before = self.setting_hash@;
                let ghost g_input = input;
                let (id, mut f) = self.setting_hash.remove(i);
                let ghost f0 = f;
                f.set_input(input);
                self.setting_hash.insert(i, (id, f));
                proof {
                    assert(self.setting_hash@[i as int].1 == Field { value: input_applied(f0.value, g_input), ..f0 });
                    assert(f0 == before[i as int].1);
                    lemma_key_index(before, field_name@, 0);
                    assert forall|j: int| 0 <= j < before.len() implies (#[trigger] self.setting_hash@[j]).0
                        == before[j].0 && (j != i ==> self.setting_hash@[j] == before[j]) by {
                        if j < i {
                            assert(self.setting_hash@[j] == before[j]);
                        } else if j > i {
                            assert(self.setting_hash@[j] == before[j]);
                        }
                    }
                    assert forall|name: Seq<char>| key_index(self.setting_hash@, name, 0) == key_index(before, name, 0) by {
                        lemma_key_index(before, name, 0);
                        lemma_key_index(self.setting_hash@, name, 0);
                        match key_index(before, name, 0) {
                            Some(a) => match key_index(self.setting_hash@, name, 0) {
                                Some(b) => {
                                    if a < b {
                                        assert(self.setting_hash@[a].0@ == name);
                                    }
                                    if b < a {
                                        assert(before[b].0@ == name);
                                    }
                                },
                                None => {
                                    assert(self.setting_hash@[a].0@ == name);
                                },
                            },
                            None => match key_index(self.setting_hash@, name, 0) {
                                Some(b) => {
                                    assert(before[b].0@ == name);
                                },
                                None => {},
                            },
                        }
                    }
                    assert forall|a: int, b: int|
                        0 <= a < b < self.setting_hash@.len() implies (#[trigger] self.setting_hash@[a]).0@
                        != (#[trigger] self.setting_hash@[b]).0@ by {
                        assert(before[a].0@ != before[b].0@);
                    }
                    assert forall|name: Seq<char>| #[trigger] self.setting(name) == if name == field_name@ {
                        match old(self).setting(name) {
                            Some(f) => Some(Field { value: input_applied(f.value, g_input), ..f }),
                            None => None,
                        }
                    } else {
                        old(self).setting(name)
                    } by {
                        lemma_key_index(before, name, 0);
                        match key_index(before, name, 0) {
                            Some(a) => {
                                if a != i as int {
                                    assert(self.setting_hash@[a] == before[a]);
                                }
                            },
                            None => {},
                        }
                    }
                }
            },
            None => {},
        }
    }
}

/// The switch `name` of `w`, or `d` if it is missing or not a switch.
pub open spec fn bool_or(w: SettingsWindow, name: Seq<char>, d: bool) -> bool {
    match w.setting(name) {
        Some(f) => match f.value {
            FieldValue::Boolean(b) => b,
            _ => d,
        },
        None => d,
    }
}

/// The integer setting `name` of `w` as a length: zero if it is missing,
/// not an integer, or negative.
pub open spec fn length_or(w: SettingsWindow, name: Seq<char>) -> int {
    let n = int_or(w, name, 0);
    if n < 0 {
        0
    } else {
        n as int
    }
}

/// The integer setting `name` of `w`, or `d` if it is missing or not an
/// integer.
pub open spec fn int_or(w: SettingsWindow, name: Seq<char>, d: i32) -> i32 {
    match w.setting(name) {
        Some(f) => match f.value {
            FieldValue::Integer(i, _) => i,
            _ => d,
        },
        None => d,
    }
}

/// Whether `new` is `old` with the default settings (with the logs folder
/// `logs_path`) added: every setting of `old` keeps its value, each default
/// missing is added, and its id is listed under its section.
pub open spec fn added_all(old: SettingsWindow, new: SettingsWindow, logs_path: Seq<char>) -> bool {
    exists|defs: Seq<(Section, String, Field)>|
        {
            &&& default_table(defs, logs_path)
            &&& forall|name: Seq<char>|
                #[trigger] new.setting(name) == setting_after(old, defs, name, defs.len() as int)
            &&& forall|sec: Section|
                #[trigger] new.section_ids(sec) == old.section_ids(sec) + added_ids(old, defs, sec, defs.len() as int)
        }
}

proof fn lemma_same_default_ids(a: Seq<(Section, String, Field)>, b: Seq<(Section, String, Field)>, p: Seq<char>, q: Seq<char>)
    requires
        default_table(a, p),
        default_table(b, q),
    ensures
        forall|k: int| 0 <= k < a.len() ==> (#[trigger] a[k]).1@ == b[k].1@,
{
    assert forall|k: int| 0 <= k < a.len() implies (#[trigger] a[k]).1@ == b[k].1@ by {
        if k == 0 {} else if k == 1 {} else if k == 2 {} else if k == 3 {} else if k == 4 {} else if k == 5 {} else if k == 6 {} else if k == 7 {} else if k == 8 {} else if k == 9 {} else if k == 10 {} else if k == 11 {} else if k == 12 {} else if k == 13 {} else if k == 14 {} else if k == 15 {} else if k == 16 {} else if k == 17 {} else if k == 18 {} else if k == 19 {} else if k == 20 {} else if k == 21 {} else if k == 22 {} else if k == 23 {} else if k == 24 {} else if k == 25 {} else if k == 26 {} else if k == 27 {} else if k == 28 {} else if k == 29 {} else if k == 30 {} else if k == 31 {} else if k == 32 {} else if k == 33 {} else if k == 34 {}
    }
}

/// Adding the default settings to settings that already got them changes
/// nothing: every setting keeps its value and every section its ids.
pub proof fn lemma_add_all_idempotent(w: SettingsWindow, w1: SettingsWindow, w2: SettingsWindow, logs_path: Seq<char>)
    requires
        added_all(w, w1, logs_path),
        added_all(w1, w2, logs_path),
    ensures
        forall|name: Seq<char>| #[trigger] w2.setting(name) == w1.setting(name),
        forall|sec: Section| #[trigger] w2.section_ids(sec) == w1.section_ids(sec),
{
    let d1 = choose|defs: Seq<(Section, String, Field)>|
        {
            &&& default_table(defs, logs_path)
            &&& forall|name: Seq<char>|
                #[trigger] w1.setting(name) == setting_after(w, defs, name, defs.len() as int)
            &&& forall|sec: Section|
                #[trigger] w1.section_ids(sec) == w.section_ids(sec) + added_ids(w, defs, sec, defs.len() as int)
        };
    let d2 = choose|defs: Seq<(Section, String, Field)>|
        {
            &&& default_table(defs, logs_path)
            &&& forall|name: Seq<char>|
                #[trigger] w2.setting(name) == setting_after(w1, defs, name, defs.len() as int)
            &&& forall|sec: Section|
                #[trigger] w2.section_ids(sec) == w1.section_ids(sec) + added_ids(w1, defs, sec, defs.len() as int)
        };
    lemma_same_default_ids(d1, d2, logs_path, logs_path);
    assert forall|k: int| 0 <= k < d2.len() implies w1.setting((#[trigger] d2[k]).1@) is Some by {
        assert(d1[k].1@ == d2[k].1@);
        lemma_defaults_present(w, d1, k);
        assert(w1.setting(d1[k].1@) == setting_after(w, d1, d1[k].1@, d1.len() as int));
    }
    assert forall|name: Seq<char>| #[trigger] w2.setting(name) == w1.setting(name) by {
        assert(w2.setting(name) == setting_after(w1, d2, name, d2.len() as int));
        lemma_first_default(d2, name, d2.len() as int);
        if w1.setting(name) is None {
            if let Some(k) = first_default(d2, name, d2.len() as int) {
                assert(w1.setting(d2[k].1@) is Some);
            }
        }
    }
    assert forall|sec: Section| #[trigger] w2.section_ids(sec) == w1.section_ids(sec) by {
        lemma_none_added(w1, d2, sec, d2.len() as int);
        assert(w1.section_ids(sec) + Seq::<String>::empty() =~= w1.section_ids(sec));
    }
}

proof fn lemma_none_added(w: SettingsWindow, defs: Seq<(Section, String, Field)>, sec: Section, n: int)
    requires
        0 <= n <= defs.len(),
        forall|k: int| 0 <= k < defs.len() ==> w.setting((#[trigger] defs[k]).1@) is Some,
    ensures
        added_ids(w, defs, sec, n) == Seq::<String>::empty(),
    decreases n,
{
    if n > 0 {
        lemma_none_added(w, defs, sec, n - 1);
        assert(w.setting(defs[n - 1].1@) is Some);
        assert(Seq::<String>::empty() + Seq::<String>::empty() =~= Seq::<String>::empty());
    }
}

/// Once the default settings are added, each of them is there.
pub proof fn lemma_defaults_present(w: SettingsWindow, defs: Seq<(Section, String, Field)>, k: int)
    requires
        0 <= k < defs.len(),
    ensures
        setting_after(w, defs, defs[k].1@, defs.len() as int) is Some,
{
    lemma_first_default(defs, defs[k].1@, defs.len() as int);
}

/// Adding the default settings a second time changes nothing: every
/// setting keeps its value and no id is listed again.
pub proof fn lemma_add_defaults_twice(
    w: SettingsWindow,
    w1: SettingsWindow,
    defs: Seq<(Section, String, Field)>,
)
    requires
        forall|name: Seq<char>|
            #[trigger] w1.setting(name) == setting_after(w, defs, name, defs.len() as int),
    ensures
        forall|name: Seq<char>|
            #[trigger] setting_after(w1, defs, name, defs.len() as int) == w1.setting(name),
        forall|sec: Section| #[trigger] added_ids(w1, defs, sec, defs.len() as int) == Seq::<String>::empty(),
{
    assert forall|name: Seq<char>|
        #[trigger] setting_after(w1, defs, name, defs.len() as int) == w1.setting(name) by {
        lemma_first_default(defs, name, defs.len() as int);
    }
    assert forall|sec: Section| #[trigger] added_ids(w1, defs, sec, defs.len() as int) == Seq::<String>::empty() by {
        lemma_no_ids_added(w, w1, defs, sec, defs.len() as int);
    }
}

proof fn lemma_no_ids_added(w: SettingsWindow, w1: SettingsWindow, defs: Seq<(Section, String, Field)>, sec: Section, n: int)
    requires
        0 <= n <= defs.len(),
        forall|name: Seq<char>|
            #[trigger] w1.setting(name) == setting_after(w, defs, name, defs.len() as int),
    ensures
        added_ids(w1, defs, sec, n) == Seq::<String>::empty(),
    decreases n,
{
    if n > 0 {
        lemma_no_ids_added(w, w1, defs, sec, n - 1);
        lemma_defaults_present(w, defs, n - 1);
        assert(w1.setting(defs[n - 1].1@) is Some);
        assert(!adds_setting(w1, defs, n - 1));
        assert(Seq::<String>::empty() + Seq::<String>::empty() =~= Seq::<String>::empty());
    }
}

} // verus!
