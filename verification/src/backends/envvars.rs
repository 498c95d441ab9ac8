//! A backend that keeps its entries as a block of environment variables:
//! one variable for each key, its value the stored bytes in base64.
//!
//! It is meant for tests and for play, not for worlds: the block lives in
//! the backend itself and goes when it goes. [`EnvVarsBackend::export`]
//! hands it out as names and values for a process environment.

use vstd::prelude::*;
use vstd::string::StringExecFns;
use crate::backend::{batch_applied, is_held, DatabaseBackend, Entries};
use crate::errors::StorageError;
use crate::text::is_word;

verus! {

/// What `base64::decode` returns on `text`: the bytes that `text` spells in
/// standard base64, or `None` where it reports an error.
pub uninterp spec fn base64_decoded(text: Seq<char>) -> Option<Seq<u8>>;

/// `base64::encode`: the text it returns is one that `base64::decode`
/// decodes to `bytes`.
#[verifier::external_body]
#[allow(deprecated)]
fn armor(bytes: &[u8]) -> (text: String)
    ensures
        base64_decoded(text@) == Some(bytes@),
{
    base64::encode(bytes)
}

/// `base64::decode`: the decoded bytes, or its error as text.
#[verifier::external_body]
#[allow(deprecated)]
fn dearmor(text: &str) -> (r: Result<Vec<u8>, String>)
    ensures
        match r {
            Ok(bytes) => base64_decoded(text@) == Some(bytes@),
            Err(_) => base64_decoded(text@) is None,
        },
{
    base64::decode(text).map_err(|e| e.to_string())
}

/// The character of the decimal digit `d`.
pub open spec fn digit_char(d: nat) -> char {
    if d == 0 {
        '0'
    } else if d == 1 {
        '1'
    } else if d == 2 {
        '2'
    } else if d == 3 {
        '3'
    } else if d == 4 {
        '4'
    } else if d == 5 {
        '5'
    } else if d == 6 {
        '6'
    } else if d == 7 {
        '7'
    } else if d == 8 {
        '8'
    } else {
        '9'
    }
}

/// Whether `c` is a decimal digit.
pub open spec fn is_digit(c: char) -> bool {
    exists|d: nat| d < 10 && c == #[trigger] digit_char(d)
}

/// The digit that `c` stands for.
pub open spec fn digit_value(c: char) -> nat {
    choose|d: nat| d < 10 && c == #[trigger] digit_char(d)
}

/// `n` in decimal, without leading zeros.
pub open spec fn decimal(n: nat) -> Seq<char>
    decreases n,
{
    if n < 10 {
        seq![digit_char(n)]
    } else {
        decimal(n / 10).push(digit_char(n % 10))
    }
}

/// The number that the digits of `text` spell.
pub open spec fn decimal_value(text: Seq<char>) -> nat
    decreases text.len(),
{
    if text.len() == 0 {
        0
    } else {
        10 * decimal_value(text.drop_last()) + digit_value(text.last())
    }
}

/// The name of the variable that stands for `key` in `table`: the key in
/// decimal, then the table.
pub open spec fn variable_name_of(table: Seq<char>, key: u64) -> Seq<char> {
    decimal(key as nat) + table
}

/// A digit stands for itself.
pub proof fn lemma_digit(d: nat)
    requires
        d < 10,
    ensures
        is_digit(digit_char(d)),
        digit_value(digit_char(d)) == d,
{
    let c = digit_char(d);
    let v = digit_value(c);
    assert(v < 10 && c == digit_char(v));
}

/// A number in decimal is digits only, and spells the number.
pub proof fn lemma_decimal(n: nat)
    ensures
        decimal(n).len() >= 1,
        forall|i: int| 0 <= i < decimal(n).len() ==> is_digit(#[trigger] decimal(n)[i]),
        decimal_value(decimal(n)) == n,
    decreases n,
{
    if n < 10 {
        lemma_digit(n);
        let one = seq![digit_char(n)];
        assert(one.drop_last() =~= Seq::<char>::empty());
        assert(decimal_value(one.drop_last()) == 0);
    } else {
        lemma_decimal(n / 10);
        lemma_digit(n % 10);
        let text = decimal(n);
        assert(text.drop_last() =~= decimal(n / 10));
        assert forall|i: int| 0 <= i < text.len() implies is_digit(#[trigger] text[i]) by {
            if i < text.len() - 1 {
                assert(text[i] == decimal(n / 10)[i]);
            }
        }
    }
}

/// Variables of tables whose names do not start with a digit have
/// different names unless they are the same variable.
pub proof fn lemma_variable_names_differ(
    table: Seq<char>,
    key: u64,
    other_table: Seq<char>,
    other_key: u64,
)
    requires
        table.len() > 0 ==> !is_digit(table[0]),
        other_table.len() > 0 ==> !is_digit(other_table[0]),
        variable_name_of(table, key) == variable_name_of(other_table, other_key),
    ensures
        table == other_table,
        key == other_key,
{
    let a = decimal(key as nat);
    let b = decimal(other_key as nat);
    let name = variable_name_of(table, key);
    let other = variable_name_of(other_table, other_key);
    lemma_decimal(key as nat);
    lemma_decimal(other_key as nat);
    if a.len() < b.len() {
        if table.len() > 0 {
            assert(name[a.len() as int] == table[0]);
            assert(other[a.len() as int] == b[a.len() as int]);
        } else {
            assert(name.len() == a.len());
            assert(other.len() >= b.len());
        }
    } else if b.len() < a.len() {
        if other_table.len() > 0 {
            assert(other[b.len() as int] == other_table[0]);
            assert(name[b.len() as int] == a[b.len() as int]);
        } else {
            assert(other.len() == b.len());
            assert(name.len() >= a.len());
        }
    } else {
        assert(a =~= name.take(a.len() as int));
        assert(b =~= other.take(b.len() as int));
        assert(table =~= name.skip(a.len() as int));
        assert(other_table =~= other.skip(b.len() as int));
    }
}

/// The text of the decimal digit `d`.
fn digit_text(d: u64) -> (r: &'static str)
    requires
        d < 10,
    ensures
        r@ == seq![digit_char(d as nat)],
{
    proof {
        reveal_strlit("0");
        reveal_strlit("1");
        reveal_strlit("2");
        reveal_strlit("3");
        reveal_strlit("4");
        reveal_strlit("5");
        reveal_strlit("6");
        reveal_strlit("7");
        reveal_strlit("8");
        reveal_strlit("9");
    }
    let r = if d == 0 {
        "0"
    } else if d == 1 {
        "1"
    } else if d == 2 {
        "2"
    } else if d == 3 {
        "3"
    } else if d == 4 {
        "4"
    } else if d == 5 {
        "5"
    } else if d == 6 {
        "6"
    } else if d == 7 {
        "7"
    } else if d == 8 {
        "8"
    } else {
        "9"
    };
    assert(r@ =~= seq![digit_char(d as nat)]);
    r
}

/// Appends `n` in decimal to `text`.
fn write_decimal(text: &mut String, n: u64)
    ensures
        final(text)@ == old(text)@ + decimal(n as nat),
    decreases n,
{
    if n >= 10 {
        write_decimal(text, n / 10);
    }
    let ghost before = text@;
    text.append(digit_text(n % 10));
    proof {
        if n >= 10 {
            assert(text@ =~= old(text)@ + decimal((n / 10) as nat).push(digit_char((n % 10) as nat)));
        } else {
            assert(text@ =~= old(text)@ + seq![digit_char(n as nat)]);
        }
    }
}

/// The name of the variable that stands for `key` in `table`.
pub fn variable_name(table: &str, key: u64) -> (name: String)
    ensures
        name@ == variable_name_of(table@, key),
{
    let mut name = String::new();
    write_decimal(&mut name, key);
    name.append(table);
    assert(name@ =~= variable_name_of(table@, key));
    name
}

/// One variable of the block: the table and key it stands for, and the
/// stored bytes in base64.
pub struct Variable {
    table: String,
    key: u64,
    text: String,
}

/// The table and key that a variable stands for.
pub open spec fn place(v: Variable) -> (Seq<char>, u64) {
    (v.spec_table(), v.spec_key())
}

/// Whether one of `vars` stands for `at`.
pub open spec fn holds(vars: Seq<Variable>, at: (Seq<char>, u64)) -> bool {
    exists|i: int| 0 <= i < vars.len() && place(#[trigger] vars[i]) == at
}

/// The index of a variable of `vars` that stands for `at`.
pub open spec fn index_of(vars: Seq<Variable>, at: (Seq<char>, u64)) -> int {
    choose|i: int| 0 <= i < vars.len() && place(#[trigger] vars[i]) == at
}

/// No two of `vars` stand for the same table and key.
pub open spec fn distinct(vars: Seq<Variable>) -> bool {
    forall|i: int, j: int|
        0 <= i < j < vars.len() ==> place(#[trigger] vars[i]) != place(#[trigger] vars[j])
}

/// Every one of `vars` holds text that decodes.
pub open spec fn readable(vars: Seq<Variable>) -> bool {
    forall|i: int| 0 <= i < vars.len() ==> base64_decoded((#[trigger] vars[i]).spec_text()) is Some
}

/// The entries that the block `vars` stands for.
pub open spec fn block_entries(vars: Seq<Variable>) -> Entries {
    Map::new(
        |at: (Seq<char>, u64)| holds(vars, at),
        |at: (Seq<char>, u64)| base64_decoded(vars[index_of(vars, at)].spec_text()).unwrap(),
    )
}

impl Variable {
    /// The table.
    pub closed spec fn spec_table(&self) -> Seq<char> {
        self.table@
    }

    /// The key.
    pub closed spec fn spec_key(&self) -> u64 {
        self.key
    }

    /// The value, in base64.
    pub closed spec fn spec_text(&self) -> Seq<char> {
        self.text@
    }
}

/// In a block without doubles, the variable at `i` is the one found for its
/// place.
proof fn lemma_index(vars: Seq<Variable>, i: int)
    requires
        distinct(vars),
        0 <= i < vars.len(),
    ensures
        holds(vars, place(vars[i])),
        index_of(vars, place(vars[i])) == i,
{
    let at = place(vars[i]);
    let j = index_of(vars, at);
    assert(0 <= j < vars.len() && place(vars[j]) == at);
    if j < i {
        assert(place(vars[j]) != place(vars[i]));
    } else if i < j {
        assert(place(vars[i]) != place(vars[j]));
    }
}

/// Appending a variable for a place that is not held stores its bytes
/// there.
proof fn lemma_appended(vars: Seq<Variable>, v: Variable)
    requires
        distinct(vars),
        !holds(vars, place(v)),
        base64_decoded(v.spec_text()) is Some,
    ensures
        distinct(vars.push(v)),
        block_entries(vars.push(v)) == block_entries(vars).insert(
            place(v),
            base64_decoded(v.spec_text()).unwrap(),
        ),
{
    let after = vars.push(v);
    assert forall|i: int, j: int| 0 <= i < j < after.len() implies place(#[trigger] after[i])
        != place(#[trigger] after[j]) by {
        if j < vars.len() {
            assert(place(vars[i]) != place(vars[j]));
        } else {
            assert(after[i] == vars[i]);
        }
    }
    let want = block_entries(vars).insert(place(v), base64_decoded(v.spec_text()).unwrap());
    assert forall|at: (Seq<char>, u64)| #[trigger] block_entries(after).contains_key(at)
        == want.contains_key(at) by {
        if holds(vars, at) {
            let i = index_of(vars, at);
            assert(after[i] == vars[i]);
        }
        if at == place(v) {
            assert(after[vars.len() as int] == v);
        }
        if holds(after, at) {
            let i = index_of(after, at);
            if i < vars.len() {
                assert(after[i] == vars[i]);
            }
        }
    }
    assert forall|at: (Seq<char>, u64)| block_entries(after).contains_key(at) implies #[trigger] block_entries(
        after,
    )[at] == want[at] by {
        let i = index_of(after, at);
        lemma_index(after, i);
        if i < vars.len() {
            assert(after[i] == vars[i]);
            lemma_index(vars, i);
        } else {
            assert(after[i] == v);
        }
    }
    assert(block_entries(after) =~= want);
}

/// Replacing the variable at `i` by one for the same place stores the new
/// bytes there.
proof fn lemma_replaced(vars: Seq<Variable>, i: int, v: Variable)
    requires
        distinct(vars),
        0 <= i < vars.len(),
        place(vars[i]) == place(v),
        base64_decoded(v.spec_text()) is Some,
    ensures
        distinct(vars.update(i, v)),
        block_entries(vars.update(i, v)) == block_entries(vars).insert(
            place(v),
            base64_decoded(v.spec_text()).unwrap(),
        ),
{
    let after = vars.update(i, v);
    assert forall|a: int, b: int| 0 <= a < b < after.len() implies place(#[trigger] after[a])
        != place(#[trigger] after[b]) by {
        assert(place(vars[a]) != place(vars[b]));
    }
    let want = block_entries(vars).insert(place(v), base64_decoded(v.spec_text()).unwrap());
    assert forall|at: (Seq<char>, u64)| #[trigger] block_entries(after).contains_key(at)
        == want.contains_key(at) by {
        if holds(vars, at) {
            let j = index_of(vars, at);
            assert(place(after[j]) == at);
        }
        if holds(after, at) {
            let j = index_of(after, at);
            assert(place(vars[j]) == at);
        }
        if at == place(v) {
            assert(place(after[i]) == at);
        }
    }
    assert forall|at: (Seq<char>, u64)| block_entries(after).contains_key(at) implies #[trigger] block_entries(
        after,
    )[at] == want[at] by {
        let j = index_of(after, at);
        lemma_index(after, j);
        lemma_index(vars, j);
        if j != i {
            assert(after[j] == vars[j]);
            assert(place(vars[j]) != place(vars[i])) by {
                if j < i {
                    assert(place(vars[j]) != place(vars[i]));
                } else {
                    assert(place(vars[i]) != place(vars[j]));
                }
            }
        }
    }
    assert(block_entries(after) =~= want);
}

/// Taking out the variable at `i` removes what was stored at its place.
proof fn lemma_removed(vars: Seq<Variable>, i: int)
    requires
        distinct(vars),
        0 <= i < vars.len(),
    ensures
        distinct(vars.remove(i)),
        block_entries(vars.remove(i)) == block_entries(vars).remove(place(vars[i])),
{
    let after = vars.remove(i);
    let gone = place(vars[i]);
    assert forall|a: int, b: int| 0 <= a < b < after.len() implies place(#[trigger] after[a])
        != place(#[trigger] after[b]) by {
        let a0 = if a < i {
            a
        } else {
            a + 1
        };
        let b0 = if b < i {
            b
        } else {
            b + 1
        };
        assert(after[a] == vars[a0] && after[b] == vars[b0]);
        assert(place(vars[a0]) != place(vars[b0]));
    }
    let want = block_entries(vars).remove(gone);
    assert forall|at: (Seq<char>, u64)| #[trigger] block_entries(after).contains_key(at)
        == want.contains_key(at) by {
        if holds(after, at) {
            let j = index_of(after, at);
            let j0 = if j < i {
                j
            } else {
                j + 1
            };
            assert(after[j] == vars[j0]);
            lemma_index(vars, j0);
            lemma_index(vars, i);
        }
        if holds(vars, at) && at != gone {
            let j0 = index_of(vars, at);
            let j = if j0 < i {
                j0
            } else {
                j0 - 1
            };
            assert(after[j] == vars[j0]);
        }
    }
    assert forall|at: (Seq<char>, u64)| block_entries(after).contains_key(at) implies #[trigger] block_entries(
        after,
    )[at] == want[at] by {
        let j = index_of(after, at);
        let j0 = if j < i {
            j
        } else {
            j + 1
        };
        assert(after[j] == vars[j0]);
        lemma_index(after, j);
        lemma_index(vars, j0);
    }
    assert(block_entries(after) =~= want);
}

/// The backend: a block of variables, no two for the same table and key.
pub struct EnvVarsBackend {
    vars: Vec<Variable>,
}

impl EnvVarsBackend {
    #[verifier::type_invariant]
    spec fn well_formed(self) -> bool {
        distinct(self.vars@) && readable(self.vars@)
    }

    /// A backend with an empty block. The path is not looked at: the block
    /// lives in memory.
    pub fn initialize(store_path: Option<String>) -> (r: Result<Self, StorageError>)
        ensures
            r matches Ok(backend) && backend.entries() == Map::<(Seq<char>, u64), Seq<u8>>::empty(),
    {
        let backend = EnvVarsBackend { vars: Vec::new() };
        assert(backend.entries() =~= Map::<(Seq<char>, u64), Seq<u8>>::empty());
        Ok(backend)
    }

    /// The index of the variable for `key` in `table`.
    fn find(&self, table: &str, key: u64) -> (r: Option<usize>)
        ensures
            match r {
                Some(i) => i < self.vars.len() && place(self.vars[i as int]) == (table@, key),
                None => !holds(self.vars@, (table@, key)),
            },
    {
        let mut i: usize = 0;
        while i < self.vars.len()
            invariant
                i <= self.vars.len(),
                forall|j: int| 0 <= j < i ==> place(#[trigger] self.vars[j]) != (table@, key),
            decreases self.vars.len() - i,
        {
            if self.vars[i].key == key && is_word(self.vars[i].table.as_str(), table) {
                return Some(i);
            }
            i += 1;
        }
        None
    }

    /// Stores `value` at `key` in `table`, over what may be there.
    fn put(&mut self, table: String, key: u64, value: Vec<u8>) -> (prior: bool)
        ensures
            prior == old(self).entries().contains_key((table@, key)),
            final(self).entries() == old(self).entries().insert((table@, key), value@),
    {
        proof {
            use_type_invariant(&*self);
        }
        let text = armor(value.as_slice());
        let found = self.find(table.as_str(), key);
        let fresh = Variable { table, key, text };
        match found {
            Some(i) => {
                proof {
                    lemma_replaced(self.vars@, i as int, fresh);
                    assert(holds(self.vars@, place(fresh)));
                }
                let mut vars: Vec<Variable> = Vec::new();
                std::mem::swap(&mut self.vars, &mut vars);
                vars.set(i, fresh);
                proof {
                    assert forall|j: int| 0 <= j < vars@.len() implies base64_decoded(
                        (#[trigger] vars@[j]).spec_text(),
                    ) is Some by {
                        if j != i {
                            assert(vars@[j] == old(self).vars@[j]);
                        }
                    }
                }
                std::mem::swap(&mut self.vars, &mut vars);
                true
            },
            None => {
                proof {
                    lemma_appended(self.vars@, fresh);
                }
                let mut vars: Vec<Variable> = Vec::new();
                std::mem::swap(&mut self.vars, &mut vars);
                vars.push(fresh);
                proof {
                    assert forall|j: int| 0 <= j < vars@.len() implies base64_decoded(
                        (#[trigger] vars@[j]).spec_text(),
                    ) is Some by {
                        if j < old(self).vars@.len() {
                            assert(vars@[j] == old(self).vars@[j]);
                        }
                    }
                }
                std::mem::swap(&mut self.vars, &mut vars);
                false
            },
        }
    }

    /// The block as names and values for a process environment, in the
    /// order of the block: the name of a variable is its key in decimal
    /// followed by its table, its value the stored bytes in base64.
    pub fn export(&self) -> (r: Vec<(String, String)>)
        ensures
            r.len() == self.spec_len(),
            forall|i: int|
                0 <= i < r.len() ==> (#[trigger] r[i]).0@ == variable_name_of(
                    self.spec_place(i).0,
                    self.spec_place(i).1,
                ) && base64_decoded(r[i].1@) == Some(
                    self.entries()[self.spec_place(i)],
                ),
    {
        proof {
            use_type_invariant(self);
        }
        let mut out: Vec<(String, String)> = Vec::new();
        let mut i: usize = 0;
        while i < self.vars.len()
            invariant
                i <= self.vars.len(),
                out.len() == i,
                distinct(self.vars@),
                readable(self.vars@),
                forall|j: int|
                    0 <= j < i ==> (#[trigger] out[j]).0@ == variable_name_of(
                        self.spec_place(j).0,
                        self.spec_place(j).1,
                    ) && base64_decoded(out[j].1@) == Some(self.entries()[self.spec_place(j)]),
            decreases self.vars.len() - i,
        {
            let name = variable_name(self.vars[i].table.as_str(), self.vars[i].key);
            let text = self.vars[i].text.clone();
            proof {
                lemma_index(self.vars@, i as int);
            }
            out.push((name, text));
            i += 1;
        }
        out
    }

    /// The table and key of the variable at `i` of the block.
    pub closed spec fn spec_place(&self, i: int) -> (Seq<char>, u64) {
        place(self.vars@[i])
    }

    /// The number of variables in the block.
    pub closed spec fn spec_len(&self) -> nat {
        self.vars@.len()
    }
}

impl DatabaseBackend for EnvVarsBackend {
    closed spec fn entries(&self) -> Entries {
        block_entries(self.vars@)
    }

    fn create_table(&mut self, table: String) -> (r: Result<(), StorageError>)
        ensures
            r is Ok,
    {
        Ok(())
    }

    fn insert(&mut self, table: String, key: u64, value: Vec<u8>) -> (r: Result<(), StorageError>)
        ensures
            r is Ok <==> !old(self).entries().contains_key((table@, key)),
            r matches Err(e) ==> e == StorageError::KeyExists(key),
    {
        match self.find(table.as_str(), key) {
            Some(_) => Err(StorageError::KeyExists(key)),
            None => {
                self.put(table, key, value);
                Ok(())
            },
        }
    }

    fn get(&self, table: String, key: u64) -> (r: Result<Option<Vec<u8>>, StorageError>)
        ensures
            r is Ok,
    {
        proof {
            use_type_invariant(self);
        }
        match self.find(table.as_str(), key) {
            None => Ok(None),
            Some(i) => {
                proof {
                    lemma_index(self.vars@, i as int);
                }
                match dearmor(self.vars[i].text.as_str()) {
                    Ok(bytes) => {
                        assert(bytes.deep_view() =~= bytes@);
                        Ok(Some(bytes))
                    },
                    Err(message) => Err(StorageError::ReadError(message)),
                }
            },
        }
    }

    fn delete(&mut self, table: String, key: u64) -> (r: Result<(), StorageError>)
        ensures
            r is Ok,
    {
        proof {
            use_type_invariant(&*self);
        }
        match self.find(table.as_str(), key) {
            Some(i) => {
                proof {
                    lemma_removed(self.vars@, i as int);
                }
                let mut vars: Vec<Variable> = Vec::new();
                std::mem::swap(&mut self.vars, &mut vars);
                vars.remove(i);
                proof {
                    assert forall|j: int| 0 <= j < vars@.len() implies base64_decoded(
                        (#[trigger] vars@[j]).spec_text(),
                    ) is Some by {
                        let j0 = if j < i {
                            j
                        } else {
                            j + 1
                        };
                        assert(vars@[j] == old(self).vars@[j0]);
                    }
                }
                std::mem::swap(&mut self.vars, &mut vars);
                Ok(())
            },
            None => {
                assert(old(self).entries().remove((table@, key)) =~= old(self).entries());
                Ok(())
            },
        }
    }

    fn update(&mut self, table: String, key: u64, value: Vec<u8>) -> (r: Result<(), StorageError>)
        ensures
            r is Ok <==> old(self).entries().contains_key((table@, key)),
            r matches Err(e) ==> e == StorageError::KeyNotFound(key),
    {
        match self.find(table.as_str(), key) {
            Some(_) => {
                assert(holds(self.vars@, (table@, key)));
                self.put(table, key, value);
                Ok(())
            },
            None => Err(StorageError::KeyNotFound(key)),
        }
    }

    fn upsert(&mut self, table: String, key: u64, value: Vec<u8>) -> (r: Result<
        bool,
        StorageError,
    >)
        ensures
            r is Ok,
    {
        let did_exist = self.put(table, key, value);
        Ok(did_exist)
    }

    fn key_exists(&self, table: String, key: u64) -> (r: Result<bool, StorageError>)
        ensures
            r is Ok,
    {
        match self.find(table.as_str(), key) {
            Some(_) => {
                assert(holds(self.vars@, (table@, key)));
                Ok(true)
            },
            None => Ok(false),
        }
    }

    fn details(&self) -> (r: String)
        ensures
            r@ == "EnvVars"@,
    {
        String::from_str("EnvVars")
    }

    fn batch_insert(&mut self, table: String, data: Vec<(u64, Vec<u8>)>) -> (r: Result<
        (),
        StorageError,
    >)
        ensures
            r is Ok,
    {
        let ghost model = data.deep_view();
        let mut i: usize = 0;
        while i < data.len()
            invariant
                i <= data.len(),
                model == data.deep_view(),
                model.len() == data.len(),
                self.entries() == batch_applied(old(self).entries(), table@, model.take(i as int)),
            decreases data.len() - i,
        {
            let key = data[i].0;
            let value = data[i].1.clone();
            proof {
                assert(value@ =~= data[i as int].1@);
                assert(model[i as int] == (key, value@)) by {
                    assert(data[i as int].1.deep_view() =~= data[i as int].1@);
                }
                assert(model.take(i + 1).drop_last() =~= model.take(i as int));
            }
            self.put(table.clone(), key, value);
            i += 1;
        }
        proof {
            assert(model.take(i as int) =~= model);
        }
        Ok(())
    }

    fn batch_get(&self, table: String, keys: Vec<u64>) -> (r: Result<
        Vec<Option<Vec<u8>>>,
        StorageError,
    >)
        ensures
            r is Ok,
    {
        let mut values: Vec<Option<Vec<u8>>> = Vec::new();
        let mut i: usize = 0;
        while i < keys.len()
            invariant
                i <= keys.len(),
                values.len() == i,
                forall|j: int|
                    0 <= j < i ==> is_held(
                        self.entries(),
                        table@,
                        keys[j],
                        #[trigger] values.deep_view()[j],
                    ),
            decreases keys.len() - i,
        {
            let ghost before = values.deep_view();
            let found = match self.get(table.clone(), keys[i]) {
                Ok(found) => found,
                Err(e) => {
                    return Err(e);
                },
            };
            values.push(found);
            proof {
                assert forall|j: int| 0 <= j < i + 1 implies is_held(
                    self.entries(),
                    table@,
                    keys[j],
                    #[trigger] values.deep_view()[j],
                ) by {
                    if j < i {
                        assert(values.deep_view()[j] == before[j]);
                    }
                }
            }
            i += 1;
        }
        Ok(values)
    }

    fn flush(&mut self) -> (r: Result<(), StorageError>)
        ensures
            r is Ok,
    {
        Ok(())
    }

    fn close(&mut self) -> (r: Result<(), StorageError>)
        ensures
            r is Ok,
    {
        Ok(())
    }

    /// The block is all the storage this backend has: what it holds is
    /// what it keeps.
    closed spec fn durable(&self) -> Entries {
        block_entries(self.vars@)
    }
}

} // verus!
