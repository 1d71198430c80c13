//! The snapshot codec: a schema serialized to a stable text form and parsed
//! back, losslessly. Saving and loading are decoupled in time, so rendering
//! can run offline from the persisted snapshot; the round-trip lemma at the
//! end states that loading returns exactly what was saved.
//!
//! The form is length-prefixed: a number is its decimal digits and a colon,
//! a string is its length then its characters, a flag is one mark, a list
//! is its length then its elements.

use vstd::prelude::*;

use crate::error::SnapshotError;
use crate::schema::{
    Column, ColumnView, Database, DatabaseKind, Reference, ReferenceView, SchemaView, Table,
    TableView,
};
use crate::text::{chars_to_string, str_chars};

verus! {

/// The digit character of a value below ten.
pub open spec fn digit_char(d: nat) -> char {
    if d == 0 {
        '0'
    } else if d == 1 {
        '1'
    } else if d == 2 {
        '2'
    } else if d == 3 {
        '3'
    } else if d == 4 {
        '4'
    } else if d == 5 {
        '5'
    } else if d == 6 {
        '6'
    } else if d == 7 {
        '7'
    } else if d == 8 {
        '8'
    } else {
        '9'
    }
}

/// Whether `c` is a decimal digit.
pub open spec fn is_digit_char(c: char) -> bool {
    c == '0' || c == '1' || c == '2' || c == '3' || c == '4' || c == '5' || c == '6' || c == '7'
        || c == '8' || c == '9'
}

/// The value of a digit character.
pub open spec fn digit_val(c: char) -> nat {
    if c == '0' {
        0
    } else if c == '1' {
        1
    } else if c == '2' {
        2
    } else if c == '3' {
        3
    } else if c == '4' {
        4
    } else if c == '5' {
        5
    } else if c == '6' {
        6
    } else if c == '7' {
        7
    } else if c == '8' {
        8
    } else {
        9
    }
}

/// The decimal digits of `n`, most significant first.
pub open spec fn spec_digits(n: nat) -> Seq<char>
    decreases n,
{
    if n < 10 {
        seq![digit_char(n)]
    } else {
        spec_digits(n / 10).push(digit_char(n % 10))
    }
}

/// Powers of ten.
pub open spec fn pow10(k: nat) -> nat
    decreases k,
{
    if k == 0 {
        1
    } else {
        10 * pow10((k - 1) as nat)
    }
}

/// A number: its digits and a closing colon.
pub open spec fn enc_nat(n: nat) -> Seq<char> {
    spec_digits(n) + seq![':']
}

/// A string: its length, then its characters verbatim.
pub open spec fn enc_str(s: Seq<char>) -> Seq<char> {
    enc_nat(s.len()) + s
}

/// A flag: one mark.
pub open spec fn enc_bool(b: bool) -> Seq<char> {
    if b {
        seq!['T']
    } else {
        seq!['F']
    }
}

/// An engine kind: one mark.
pub open spec fn enc_kind(k: DatabaseKind) -> Seq<char> {
    match k {
        DatabaseKind::Postgres => seq!['P'],
        DatabaseKind::MySql => seq!['M'],
        DatabaseKind::MariaDb => seq!['A'],
        DatabaseKind::SqLite => seq!['L'],
    }
}

/// A reference: its table, then its column.
pub open spec fn enc_ref(r: ReferenceView) -> Seq<char> {
    enc_str(r.table) + enc_str(r.column)
}

/// An optional reference: an absence mark, or a presence mark and the value.
pub open spec fn enc_opt_ref(o: Option<ReferenceView>) -> Seq<char> {
    match o {
        None => seq!['N'],
        Some(r) => seq!['S'] + enc_ref(r),
    }
}

/// A reference list, element after element.
pub open spec fn enc_ref_list(rs: Seq<ReferenceView>) -> Seq<char>
    decreases rs.len(),
{
    if rs.len() == 0 {
        Seq::empty()
    } else {
        enc_ref_list(rs.drop_last()) + enc_ref(rs.last())
    }
}

/// A column: name, raw type, the two flags, the outgoing link, then the
/// incoming links with their count.
pub open spec fn enc_col(c: ColumnView) -> Seq<char> {
    enc_str(c.name) + enc_str(c.kind) + enc_bool(c.is_primary_key) + enc_bool(c.optional)
        + enc_opt_ref(c.references) + enc_nat(c.referenced_by.len()) + enc_ref_list(
        c.referenced_by,
    )
}

/// A column list, element after element.
pub open spec fn enc_col_list(cs: Seq<ColumnView>) -> Seq<char>
    decreases cs.len(),
{
    if cs.len() == 0 {
        Seq::empty()
    } else {
        enc_col_list(cs.drop_last()) + enc_col(cs.last())
    }
}

/// A table: its name, then its columns with their count.
pub open spec fn enc_table(t: TableView) -> Seq<char> {
    enc_str(t.name) + enc_nat(t.columns.len()) + enc_col_list(t.columns)
}

/// A table list, element after element.
pub open spec fn enc_table_list(ts: Seq<TableView>) -> Seq<char>
    decreases ts.len(),
{
    if ts.len() == 0 {
        Seq::empty()
    } else {
        enc_table_list(ts.drop_last()) + enc_table(ts.last())
    }
}

/// The whole snapshot: engine kind, schema name, then the tables with their
/// count.
pub open spec fn spec_save(s: SchemaView) -> Seq<char> {
    enc_kind(s.kind) + enc_str(s.name) + enc_nat(s.tables.len()) + enc_table_list(s.tables)
}

/// Parses digits into an accumulator until the closing colon; fails on a
/// stray character, a truncated input, or a value beyond the machine range.
pub open spec fn dec_nat_acc(s: Seq<char>, acc: nat) -> Option<(nat, Seq<char>)>
    decreases s.len(),
{
    if s.len() == 0 {
        None
    } else if is_digit_char(s[0]) {
        let v = acc * 10 + digit_val(s[0]);
        if v > u64::MAX as nat {
            None
        } else {
            dec_nat_acc(s.skip(1), v)
        }
    } else if s[0] == ':' {
        Some((acc, s.skip(1)))
    } else {
        None
    }
}

/// Parses a number.
pub open spec fn dec_nat(s: Seq<char>) -> Option<(nat, Seq<char>)> {
    dec_nat_acc(s, 0)
}

/// Parses a length-prefixed string.
pub open spec fn dec_str(s: Seq<char>) -> Option<(Seq<char>, Seq<char>)> {
    match dec_nat(s) {
        None => None,
        Some((n, r)) => if r.len() < n {
            None
        } else {
            Some((r.take(n as int), r.skip(n as int)))
        },
    }
}

/// Parses a flag.
pub open spec fn dec_bool(s: Seq<char>) -> Option<(bool, Seq<char>)> {
    if s.len() == 0 {
        None
    } else if s[0] == 'T' {
        Some((true, s.skip(1)))
    } else if s[0] == 'F' {
        Some((false, s.skip(1)))
    } else {
        None
    }
}

/// Parses an engine kind.
pub open spec fn dec_kind(s: Seq<char>) -> Option<(DatabaseKind, Seq<char>)> {
    if s.len() == 0 {
        None
    } else if s[0] == 'P' {
        Some((DatabaseKind::Postgres, s.skip(1)))
    } else if s[0] == 'M' {
        Some((DatabaseKind::MySql, s.skip(1)))
    } else if s[0] == 'A' {
        Some((DatabaseKind::MariaDb, s.skip(1)))
    } else if s[0] == 'L' {
        Some((DatabaseKind::SqLite, s.skip(1)))
    } else {
        None
    }
}

/// Parses a reference.
pub open spec fn dec_ref(s: Seq<char>) -> Option<(ReferenceView, Seq<char>)> {
    match dec_str(s) {
        None => None,
        Some((table, r)) => match dec_str(r) {
            None => None,
            Some((column, r2)) => Some((ReferenceView { table, column }, r2)),
        },
    }
}

/// Parses an optional reference.
pub open spec fn dec_opt_ref(s: Seq<char>) -> Option<(Option<ReferenceView>, Seq<char>)> {
    if s.len() == 0 {
        None
    } else if s[0] == 'N' {
        Some((None, s.skip(1)))
    } else if s[0] == 'S' {
        match dec_ref(s.skip(1)) {
            None => None,
            Some((r, rest)) => Some((Some(r), rest)),
        }
    } else {
        None
    }
}

/// Parses `n` references, accumulating in order.
pub open spec fn dec_ref_list(s: Seq<char>, n: nat, acc: Seq<ReferenceView>) -> Option<
    (Seq<ReferenceView>, Seq<char>),
>
    decreases n,
{
    if n == 0 {
        Some((acc, s))
    } else {
        match dec_ref(s) {
            None => None,
            Some((r, rest)) => dec_ref_list(rest, (n - 1) as nat, acc.push(r)),
        }
    }
}

/// Parses a column.
pub open spec fn dec_col(s: Seq<char>) -> Option<(ColumnView, Seq<char>)> {
    match dec_str(s) {
        None => None,
        Some((name, r1)) => match dec_str(r1) {
            None => None,
            Some((kind, r2)) => match dec_bool(r2) {
                None => None,
                Some((is_primary_key, r3)) => match dec_bool(r3) {
                    None => None,
                    Some((optional, r4)) => match dec_opt_ref(r4) {
                        None => None,
                        Some((references, r5)) => match dec_nat(r5) {
                            None => None,
                            Some((n, r6)) => match dec_ref_list(r6, n, Seq::empty()) {
                                None => None,
                                Some((referenced_by, r7)) => Some(
                                    (
                                        ColumnView {
                                            name,
                                            kind,
                                            is_primary_key,
                                            optional,
                                            referenced_by,
                                            references,
                                        },
                                        r7,
                                    ),
                                ),
                            },
                        },
                    },
                },
            },
        },
    }
}

/// Parses `n` columns, accumulating in order.
pub open spec fn dec_col_list(s: Seq<char>, n: nat, acc: Seq<ColumnView>) -> Option<
    (Seq<ColumnView>, Seq<char>),
>
    decreases n,
{
    if n == 0 {
        Some((acc, s))
    } else {
        match dec_col(s) {
            None => None,
            Some((c, rest)) => dec_col_list(rest, (n - 1) as nat, acc.push(c)),
        }
    }
}

/// Parses a table.
pub open spec fn dec_table(s: Seq<char>) -> Option<(TableView, Seq<char>)> {
    match dec_str(s) {
        None => None,
        Some((name, r1)) => match dec_nat(r1) {
            None => None,
            Some((n, r2)) => match dec_col_list(r2, n, Seq::empty()) {
                None => None,
                Some((columns, r3)) => Some((TableView { name, columns }, r3)),
            },
        },
    }
}

/// Parses `n` tables, accumulating in order.
pub open spec fn dec_table_list(s: Seq<char>, n: nat, acc: Seq<TableView>) -> Option<
    (Seq<TableView>, Seq<char>),
>
    decreases n,
{
    if n == 0 {
        Some((acc, s))
    } else {
        match dec_table(s) {
            None => None,
            Some((t, rest)) => dec_table_list(rest, (n - 1) as nat, acc.push(t)),
        }
    }
}

/// Parses a whole snapshot; trailing text is malformed.
pub open spec fn spec_load(s: Seq<char>) -> Option<SchemaView> {
    match dec_kind(s) {
        None => None,
        Some((kind, r1)) => match dec_str(r1) {
            None => None,
            Some((name, r2)) => match dec_nat(r2) {
                None => None,
                Some((n, r3)) => match dec_table_list(r3, n, Seq::empty()) {
                    None => None,
                    Some((tables, r4)) => if r4.len() == 0 {
                        Some(SchemaView { kind, name, tables })
                    } else {
                        None
                    },
                },
            },
        },
    }
}

/// Within machine range: both name lengths.
pub open spec fn bounded_ref(r: ReferenceView) -> bool {
    r.table.len() <= u64::MAX && r.column.len() <= u64::MAX
}

/// Within machine range: every length a column encodes.
pub open spec fn bounded_col(c: ColumnView) -> bool {
    &&& c.name.len() <= u64::MAX
    &&& c.kind.len() <= u64::MAX
    &&& c.referenced_by.len() <= u64::MAX
    &&& forall|i: int| 0 <= i < c.referenced_by.len() ==> bounded_ref(#[trigger] c.referenced_by[i])
    &&& (c.references matches Some(r) ==> bounded_ref(r))
}

/// Within machine range: every length a table encodes.
pub open spec fn bounded_table(t: TableView) -> bool {
    &&& t.name.len() <= u64::MAX
    &&& t.columns.len() <= u64::MAX
    &&& forall|i: int| 0 <= i < t.columns.len() ==> bounded_col(#[trigger] t.columns[i])
}

/// Within machine range: every length a schema encodes. Any schema held in
/// memory satisfies this.
pub open spec fn bounded_schema(s: SchemaView) -> bool {
    &&& s.name.len() <= u64::MAX
    &&& s.tables.len() <= u64::MAX
    &&& forall|i: int| 0 <= i < s.tables.len() ==> bounded_table(#[trigger] s.tables[i])
}

/// Every digit of an encoded number parses as itself.
proof fn lemma_digit_facts(d: nat)
    requires
        d < 10,
    ensures
        is_digit_char(digit_char(d)),
        digit_val(digit_char(d)) == d,
{
}

/// Parsing the digits of `n` folds `n` into the accumulator.
proof fn lemma_dec_digits(n: nat, tail: Seq<char>, acc: nat)
    requires
        acc * pow10(spec_digits(n).len()) + n <= u64::MAX,
    ensures
        dec_nat_acc(spec_digits(n) + tail, acc) == dec_nat_acc(
            tail,
            acc * pow10(spec_digits(n).len()) + n,
        ),
    decreases n,
{
    let ds = spec_digits(n);
    if n < 10 {
        assert(ds == seq![digit_char(n)]);
        assert((ds + tail)[0] == digit_char(n));
        lemma_digit_facts(n);
        assert(pow10(0) == 1);
        assert(pow10(1) == 10);
        assert((ds + tail).skip(1) =~= tail);
        assert(acc * 10 + n <= u64::MAX);
    } else {
        let q = n / 10;
        let r0 = n % 10;
        assert(n == 10 * q + r0);
        let k = spec_digits(q).len();
        assert(ds == spec_digits(q).push(digit_char(r0)));
        assert(ds =~= spec_digits(q) + seq![digit_char(r0)]);
        assert(ds + tail =~= spec_digits(q) + (seq![digit_char(r0)] + tail));
        assert(ds.len() == k + 1);
        assert(pow10(k + 1) == 10 * pow10(k));
        assert(pow10(k) >= 1) by {
            lemma_pow10_pos(k);
        };
        assert(acc * pow10(k) + q <= acc * (10 * pow10(k)) + n) by (nonlinear_arith)
            requires
                n == 10 * q + r0,
                r0 < 10,
                pow10(k) >= 1,
        ;
        lemma_dec_digits(q, seq![digit_char(r0)] + tail, acc);
        let acc2 = acc * pow10(k) + q;
        lemma_digit_facts(r0);
        assert((seq![digit_char(r0)] + tail)[0] == digit_char(r0));
        assert((seq![digit_char(r0)] + tail).skip(1) =~= tail);
        assert(acc2 * 10 + r0 == acc * pow10(k + 1) + n) by (nonlinear_arith)
            requires
                acc2 == acc * pow10(k) + q,
                n == 10 * q + r0,
                pow10(k + 1) == 10 * pow10(k),
        ;
        assert(acc2 * 10 + r0 <= u64::MAX);
    }
}

/// Parsing an encoded number yields it and the tail.
proof fn lemma_dec_enc_nat(n: nat, tail: Seq<char>)
    requires
        n <= u64::MAX,
    ensures
        dec_nat(enc_nat(n) + tail) == Some((n, tail)),
{
    assert(enc_nat(n) + tail =~= spec_digits(n) + (seq![':'] + tail));
    lemma_pow10_pos(spec_digits(n).len());
    assert(0 * pow10(spec_digits(n).len()) + n == n) by (nonlinear_arith);
    lemma_dec_digits(n, seq![':'] + tail, 0);
    assert((seq![':'] + tail)[0] == ':');
    assert(!is_digit_char(':'));
    assert((seq![':'] + tail).skip(1) =~= tail);
}

/// Powers of ten are positive.
proof fn lemma_pow10_pos(k: nat)
    ensures
        pow10(k) >= 1,
    decreases k,
{
    if k > 0 {
        lemma_pow10_pos((k - 1) as nat);
    }
}

/// Parsing an encoded string yields it and the tail.
proof fn lemma_dec_enc_str(s: Seq<char>, tail: Seq<char>)
    requires
        s.len() <= u64::MAX,
    ensures
        dec_str(enc_str(s) + tail) == Some((s, tail)),
{
    assert(enc_str(s) + tail =~= enc_nat(s.len()) + (s + tail));
    lemma_dec_enc_nat(s.len(), s + tail);
    assert((s + tail).take(s.len() as int) =~= s);
    assert((s + tail).skip(s.len() as int) =~= tail);
}

/// Parsing an encoded flag yields it and the tail.
proof fn lemma_dec_enc_bool(b: bool, tail: Seq<char>)
    ensures
        dec_bool(enc_bool(b) + tail) == Some((b, tail)),
{
    assert((enc_bool(b) + tail)[0] == (if b {
        'T'
    } else {
        'F'
    }));
    assert((enc_bool(b) + tail).skip(1) =~= tail);
}

/// Parsing an encoded engine kind yields it and the tail.
proof fn lemma_dec_enc_kind(k: DatabaseKind, tail: Seq<char>)
    ensures
        dec_kind(enc_kind(k) + tail) == Some((k, tail)),
{
    assert((enc_kind(k) + tail).skip(1) =~= tail);
    match k {
        DatabaseKind::Postgres => assert((enc_kind(k) + tail)[0] == 'P'),
        DatabaseKind::MySql => assert((enc_kind(k) + tail)[0] == 'M'),
        DatabaseKind::MariaDb => assert((enc_kind(k) + tail)[0] == 'A'),
        DatabaseKind::SqLite => assert((enc_kind(k) + tail)[0] == 'L'),
    }
}

/// Parsing an encoded reference yields it and the tail.
proof fn lemma_dec_enc_ref(r: ReferenceView, tail: Seq<char>)
    requires
        bounded_ref(r),
    ensures
        dec_ref(enc_ref(r) + tail) == Some((r, tail)),
{
    assert(enc_ref(r) + tail =~= enc_str(r.table) + (enc_str(r.column) + tail));
    lemma_dec_enc_str(r.table, enc_str(r.column) + tail);
    lemma_dec_enc_str(r.column, tail);
    assert(r == (ReferenceView { table: r.table, column: r.column }));
}

/// Parsing an encoded optional reference yields it and the tail.
proof fn lemma_dec_enc_opt_ref(o: Option<ReferenceView>, tail: Seq<char>)
    requires
        o matches Some(r) ==> bounded_ref(r),
    ensures
        dec_opt_ref(enc_opt_ref(o) + tail) == Some((o, tail)),
{
    match o {
        None => {
            assert((enc_opt_ref(o) + tail)[0] == 'N');
            assert((enc_opt_ref(o) + tail).skip(1) =~= tail);
        },
        Some(r) => {
            assert((enc_opt_ref(o) + tail)[0] == 'S');
            assert((enc_opt_ref(o) + tail).skip(1) =~= enc_ref(r) + tail);
            lemma_dec_enc_ref(r, tail);
        },
    }
}

/// An encoded list splits off its first element.
proof fn lemma_enc_ref_list_front(rs: Seq<ReferenceView>)
    requires
        rs.len() > 0,
    ensures
        enc_ref_list(rs) == enc_ref(rs[0]) + enc_ref_list(rs.skip(1)),
    decreases rs.len(),
{
    if rs.len() == 1 {
        assert(rs.drop_last().len() == 0);
        assert(rs.skip(1).len() == 0);
        assert(enc_ref_list(rs.drop_last()) =~= Seq::<char>::empty());
        assert(enc_ref_list(rs.skip(1)) =~= Seq::<char>::empty());
        assert(enc_ref_list(rs) =~= enc_ref(rs[0]) + enc_ref_list(rs.skip(1)));
    } else {
        lemma_enc_ref_list_front(rs.drop_last());
        assert(rs.drop_last()[0] == rs[0]);
        assert(rs.drop_last().skip(1) =~= rs.skip(1).drop_last());
        assert(rs.skip(1).last() == rs.last());
        assert(rs.skip(1).len() > 0);
        assert(enc_ref_list(rs) == (enc_ref(rs[0]) + enc_ref_list(rs.skip(1).drop_last()))
            + enc_ref(rs.last()));
        assert((enc_ref(rs[0]) + enc_ref_list(rs.skip(1).drop_last())) + enc_ref(rs.last()) =~=
            enc_ref(rs[0]) + (enc_ref_list(rs.skip(1).drop_last()) + enc_ref(rs.last())));
    }
}

/// Parsing an encoded reference list yields its elements after the
/// accumulator, and the tail.
proof fn lemma_dec_enc_ref_list(rs: Seq<ReferenceView>, tail: Seq<char>, acc: Seq<ReferenceView>)
    requires
        forall|i: int| 0 <= i < rs.len() ==> bounded_ref(#[trigger] rs[i]),
    ensures
        dec_ref_list(enc_ref_list(rs) + tail, rs.len(), acc) == Some((acc + rs, tail)),
    decreases rs.len(),
{
    if rs.len() == 0 {
        assert(enc_ref_list(rs) + tail =~= tail);
        assert(acc + rs =~= acc);
    } else {
        lemma_enc_ref_list_front(rs);
        assert(enc_ref_list(rs) + tail =~= enc_ref(rs[0]) + (enc_ref_list(rs.skip(1)) + tail));
        lemma_dec_enc_ref(rs[0], enc_ref_list(rs.skip(1)) + tail);
        assert(forall|i: int|
            0 <= i < rs.skip(1).len() ==> bounded_ref(#[trigger] rs.skip(1)[i]));
        lemma_dec_enc_ref_list(rs.skip(1), tail, acc.push(rs[0]));
        assert(acc.push(rs[0]) + rs.skip(1) =~= acc + rs);
    }
}

/// Parsing an encoded column yields it and the tail.
proof fn lemma_dec_enc_col(c: ColumnView, tail: Seq<char>)
    requires
        bounded_col(c),
    ensures
        dec_col(enc_col(c) + tail) == Some((c, tail)),
{
    let p1 = enc_str(c.name);
    let p2 = enc_str(c.kind);
    let p3 = enc_bool(c.is_primary_key);
    let p4 = enc_bool(c.optional);
    let p5 = enc_opt_ref(c.references);
    let p6 = enc_nat(c.referenced_by.len());
    let p7 = enc_ref_list(c.referenced_by);
    assert(enc_col(c) + tail =~= p1 + (p2 + (p3 + (p4 + (p5 + (p6 + (p7 + tail)))))));
    lemma_dec_enc_str(c.name, p2 + (p3 + (p4 + (p5 + (p6 + (p7 + tail))))));
    lemma_dec_enc_str(c.kind, p3 + (p4 + (p5 + (p6 + (p7 + tail)))));
    lemma_dec_enc_bool(c.is_primary_key, p4 + (p5 + (p6 + (p7 + tail))));
    lemma_dec_enc_bool(c.optional, p5 + (p6 + (p7 + tail)));
    lemma_dec_enc_opt_ref(c.references, p6 + (p7 + tail));
    lemma_dec_enc_nat(c.referenced_by.len(), p7 + tail);
    lemma_dec_enc_ref_list(c.referenced_by, tail, Seq::empty());
    assert(Seq::empty() + c.referenced_by =~= c.referenced_by);
    assert(c == (ColumnView {
        name: c.name,
        kind: c.kind,
        is_primary_key: c.is_primary_key,
        optional: c.optional,
        referenced_by: c.referenced_by,
        references: c.references,
    }));
}

/// An encoded list splits off its first element.
proof fn lemma_enc_col_list_front(cs: Seq<ColumnView>)
    requires
        cs.len() > 0,
    ensures
        enc_col_list(cs) == enc_col(cs[0]) + enc_col_list(cs.skip(1)),
    decreases cs.len(),
{
    if cs.len() == 1 {
        assert(cs.drop_last().len() == 0);
        assert(cs.skip(1).len() == 0);
        assert(enc_col_list(cs.drop_last()) =~= Seq::<char>::empty());
        assert(enc_col_list(cs.skip(1)) =~= Seq::<char>::empty());
        assert(enc_col_list(cs) =~= enc_col(cs[0]) + enc_col_list(cs.skip(1)));
    } else {
        lemma_enc_col_list_front(cs.drop_last());
        assert(cs.drop_last()[0] == cs[0]);
        assert(cs.drop_last().skip(1) =~= cs.skip(1).drop_last());
        assert(cs.skip(1).last() == cs.last());
        assert(cs.skip(1).len() > 0);
        assert(enc_col_list(cs) == (enc_col(cs[0]) + enc_col_list(cs.skip(1).drop_last()))
            + enc_col(cs.last()));
        assert((enc_col(cs[0]) + enc_col_list(cs.skip(1).drop_last())) + enc_col(cs.last()) =~=
            enc_col(cs[0]) + (enc_col_list(cs.skip(1).drop_last()) + enc_col(cs.last())));
    }
}

/// Parsing an encoded column list yields its elements after the
/// accumulator, and the tail.
proof fn lemma_dec_enc_col_list(cs: Seq<ColumnView>, tail: Seq<char>, acc: Seq<ColumnView>)
    requires
        forall|i: int| 0 <= i < cs.len() ==> bounded_col(#[trigger] cs[i]),
    ensures
        dec_col_list(enc_col_list(cs) + tail, cs.len(), acc) == Some((acc + cs, tail)),
    decreases cs.len(),
{
    if cs.len() == 0 {
        assert(enc_col_list(cs) + tail =~= tail);
        assert(acc + cs =~= acc);
    } else {
        lemma_enc_col_list_front(cs);
        assert(enc_col_list(cs) + tail =~= enc_col(cs[0]) + (enc_col_list(cs.skip(1)) + tail));
        lemma_dec_enc_col(cs[0], enc_col_list(cs.skip(1)) + tail);
        assert(forall|i: int| 0 <= i < cs.skip(1).len() ==> bounded_col(#[trigger] cs.skip(1)[i]));
        lemma_dec_enc_col_list(cs.skip(1), tail, acc.push(cs[0]));
        assert(acc.push(cs[0]) + cs.skip(1) =~= acc + cs);
    }
}

/// Parsing an encoded table yields it and the tail.
proof fn lemma_dec_enc_table(t: TableView, tail: Seq<char>)
    requires
        bounded_table(t),
    ensures
        dec_table(enc_table(t) + tail) == Some((t, tail)),
{
    let p1 = enc_str(t.name);
    let p2 = enc_nat(t.columns.len());
    let p3 = enc_col_list(t.columns);
    assert(enc_table(t) + tail =~= p1 + (p2 + (p3 + tail)));
    lemma_dec_enc_str(t.name, p2 + (p3 + tail));
    lemma_dec_enc_nat(t.columns.len(), p3 + tail);
    lemma_dec_enc_col_list(t.columns, tail, Seq::empty());
    assert(Seq::empty() + t.columns =~= t.columns);
    assert(t == (TableView { name: t.name, columns: t.columns }));
}

/// An encoded list splits off its first element.
proof fn lemma_enc_table_list_front(ts: Seq<TableView>)
    requires
        ts.len() > 0,
    ensures
        enc_table_list(ts) == enc_table(ts[0]) + enc_table_list(ts.skip(1)),
    decreases ts.len(),
{
    if ts.len() == 1 {
        assert(ts.drop_last().len() == 0);
        assert(ts.skip(1).len() == 0);
        assert(enc_table_list(ts.drop_last()) =~= Seq::<char>::empty());
        assert(enc_table_list(ts.skip(1)) =~= Seq::<char>::empty());
        assert(enc_table_list(ts) =~= enc_table(ts[0]) + enc_table_list(ts.skip(1)));
    } else {
        lemma_enc_table_list_front(ts.drop_last());
        assert(ts.drop_last()[0] == ts[0]);
        assert(ts.drop_last().skip(1) =~= ts.skip(1).drop_last());
        assert(ts.skip(1).last() == ts.last());
        assert(ts.skip(1).len() > 0);
        assert(enc_table_list(ts) == (enc_table(ts[0]) + enc_table_list(ts.skip(1).drop_last()))
            + enc_table(ts.last()));
        assert((enc_table(ts[0]) + enc_table_list(ts.skip(1).drop_last())) + enc_table(ts.last())
            =~= enc_table(ts[0]) + (enc_table_list(ts.skip(1).drop_last()) + enc_table(
            ts.last(),
        )));
    }
}

/// Parsing an encoded table list yields its elements after the accumulator,
/// and the tail.
proof fn lemma_dec_enc_table_list(ts: Seq<TableView>, tail: Seq<char>, acc: Seq<TableView>)
    requires
        forall|i: int| 0 <= i < ts.len() ==> bounded_table(#[trigger] ts[i]),
    ensures
        dec_table_list(enc_table_list(ts) + tail, ts.len(), acc) == Some((acc + ts, tail)),
    decreases ts.len(),
{
    if ts.len() == 0 {
        assert(enc_table_list(ts) + tail =~= tail);
        assert(acc + ts =~= acc);
    } else {
        lemma_enc_table_list_front(ts);
        assert(enc_table_list(ts) + tail =~= enc_table(ts[0]) + (enc_table_list(ts.skip(1))
            + tail));
        lemma_dec_enc_table(ts[0], enc_table_list(ts.skip(1)) + tail);
        assert(forall|i: int|
            0 <= i < ts.skip(1).len() ==> bounded_table(#[trigger] ts.skip(1)[i]));
        lemma_dec_enc_table_list(ts.skip(1), tail, acc.push(ts[0]));
        assert(acc.push(ts[0]) + ts.skip(1) =~= acc + ts);
    }
}

/// The digit character of a value below ten.
fn digit_str(d: u64) -> (r: &'static str)
    requires
        d < 10,
    ensures
        r@ == seq![digit_char(d as nat)],
{
    let s: &'static str = if d == 0 {
        "0"
    } else if d == 1 {
        "1"
    } else if d == 2 {
        "2"
    } else if d == 3 {
        "3"
    } else if d == 4 {
        "4"
    } else if d == 5 {
        "5"
    } else if d == 6 {
        "6"
    } else if d == 7 {
        "7"
    } else if d == 8 {
        "8"
    } else {
        "9"
    };
    proof {
        reveal_strlit("0");
        reveal_strlit("1");
        reveal_strlit("2");
        reveal_strlit("3");
        reveal_strlit("4");
        reveal_strlit("5");
        reveal_strlit("6");
        reveal_strlit("7");
        reveal_strlit("8");
        reveal_strlit("9");
        assert(s@ =~= seq![digit_char(d as nat)]);
    }
    s
}

/// Appends the decimal digits of `n`.
fn write_digits(n: u64, out: &mut String)
    ensures
        final(out)@ == old(out)@ + spec_digits(n as nat),
    decreases n,
{
    if n >= 10 {
        write_digits(n / 10, out);
    }
    out.append(digit_str(n % 10));
    proof {
        assert(out@ =~= old(out)@ + spec_digits(n as nat));
    }
}

/// Appends an encoded number.
fn write_nat(n: u64, out: &mut String)
    ensures
        final(out)@ == old(out)@ + enc_nat(n as nat),
{
    write_digits(n, out);
    out.append(":");
    proof {
        reveal_strlit(":");
        assert(out@ =~= old(out)@ + enc_nat(n as nat));
    }
}

/// Appends an encoded string.
fn write_str(s: &String, out: &mut String)
    ensures
        final(out)@ == old(out)@ + enc_str(s@),
{
    let chars = str_chars(s.as_str());
    write_nat(chars.len() as u64, out);
    out.append(s.as_str());
    proof {
        assert(out@ =~= old(out)@ + enc_str(s@));
    }
}

/// Appends an encoded flag.
fn write_bool(b: bool, out: &mut String)
    ensures
        final(out)@ == old(out)@ + enc_bool(b),
{
    if b {
        out.append("T");
    } else {
        out.append("F");
    }
    proof {
        reveal_strlit("T");
        reveal_strlit("F");
        assert(out@ =~= old(out)@ + enc_bool(b));
    }
}

/// Appends an encoded engine kind.
fn write_kind(k: DatabaseKind, out: &mut String)
    ensures
        final(out)@ == old(out)@ + enc_kind(k),
{
    match k {
        DatabaseKind::Postgres => out.append("P"),
        DatabaseKind::MySql => out.append("M"),
        DatabaseKind::MariaDb => out.append("A"),
        DatabaseKind::SqLite => out.append("L"),
    }
    proof {
        reveal_strlit("P");
        reveal_strlit("M");
        reveal_strlit("A");
        reveal_strlit("L");
        assert(out@ =~= old(out)@ + enc_kind(k));
    }
}

/// Appends an encoded reference.
fn write_ref(r: &Reference, out: &mut String)
    ensures
        final(out)@ == old(out)@ + enc_ref(r.deep_view()),
{
    write_str(&r.table, out);
    write_str(&r.column, out);
    proof {
        assert(out@ =~= old(out)@ + enc_ref(r.deep_view()));
    }
}

/// Appends an encoded optional reference.
fn write_opt_ref(o: &Option<Reference>, out: &mut String)
    ensures
        final(out)@ == old(out)@ + enc_opt_ref(o.deep_view()),
{
    match o {
        None => {
            out.append("N");
            proof {
                reveal_strlit("N");
                assert(out@ =~= old(out)@ + enc_opt_ref(o.deep_view()));
            }
        },
        Some(r) => {
            out.append("S");
            write_ref(r, out);
            proof {
                reveal_strlit("S");
                assert(out@ =~= old(out)@ + enc_opt_ref(o.deep_view()));
            }
        },
    }
}

/// Appends the elements of an encoded reference list.
fn write_ref_list(v: &Vec<Reference>, out: &mut String)
    ensures
        final(out)@ == old(out)@ + enc_ref_list(v.deep_view()),
{
    let ghost dv = v.deep_view();
    let mut i: usize = 0;
    while i < v.len()
        invariant
            i <= v.len(),
            dv == v.deep_view(),
            out@ =~= old(out)@ + enc_ref_list(dv.take(i as int)),
        decreases v.len() - i,
    {
        write_ref(&v[i], out);
        proof {
            assert(dv.take(i as int + 1).drop_last() =~= dv.take(i as int));
            assert(dv.take(i as int + 1).last() == dv[i as int]);
            assert(out@ =~= old(out)@ + enc_ref_list(dv.take(i as int + 1)));
        }
        i += 1;
    }
    proof {
        assert(dv.take(v@.len() as int) =~= dv);
    }
}

/// Appends an encoded column.
fn write_col(c: &Column, out: &mut String)
    ensures
        final(out)@ == old(out)@ + enc_col(c.deep_view()),
{
    write_str(&c.name, out);
    write_str(&c.kind, out);
    write_bool(c.is_primary_key, out);
    write_bool(c.optional, out);
    write_opt_ref(&c.references, out);
    write_nat(c.referenced_by.len() as u64, out);
    write_ref_list(&c.referenced_by, out);
    proof {
        assert(out@ =~= old(out)@ + enc_col(c.deep_view()));
    }
}

/// Appends the elements of an encoded column list.
fn write_col_list(v: &Vec<Column>, out: &mut String)
    ensures
        final(out)@ == old(out)@ + enc_col_list(v.deep_view()),
{
    let ghost dv = v.deep_view();
    let mut i: usize = 0;
    while i < v.len()
        invariant
            i <= v.len(),
            dv == v.deep_view(),
            out@ =~= old(out)@ + enc_col_list(dv.take(i as int)),
        decreases v.len() - i,
    {
        write_col(&v[i], out);
        proof {
            assert(dv.take(i as int + 1).drop_last() =~= dv.take(i as int));
            assert(dv.take(i as int + 1).last() == dv[i as int]);
            assert(out@ =~= old(out)@ + enc_col_list(dv.take(i as int + 1)));
        }
        i += 1;
    }
    proof {
        assert(dv.take(v@.len() as int) =~= dv);
    }
}

/// Appends an encoded table.
fn write_table(t: &Table, out: &mut String)
    ensures
        final(out)@ == old(out)@ + enc_table(t.deep_view()),
{
    write_str(&t.name, out);
    write_nat(t.columns.len() as u64, out);
    write_col_list(&t.columns, out);
    proof {
        assert(out@ =~= old(out)@ + enc_table(t.deep_view()));
    }
}

/// Appends the elements of an encoded table list.
fn write_table_list(v: &Vec<Table>, out: &mut String)
    ensures
        final(out)@ == old(out)@ + enc_table_list(v.deep_view()),
{
    let ghost dv = v.deep_view();
    let mut i: usize = 0;
    while i < v.len()
        invariant
            i <= v.len(),
            dv == v.deep_view(),
            out@ =~= old(out)@ + enc_table_list(dv.take(i as int)),
        decreases v.len() - i,
    {
        write_table(&v[i], out);
        proof {
            assert(dv.take(i as int + 1).drop_last() =~= dv.take(i as int));
            assert(dv.take(i as int + 1).last() == dv[i as int]);
            assert(out@ =~= old(out)@ + enc_table_list(dv.take(i as int + 1)));
        }
        i += 1;
    }
    proof {
        assert(dv.take(v@.len() as int) =~= dv);
    }
}

/// Serializes a schema to its snapshot text. The text round-trips: see
/// [`lemma_snapshot_round_trip`] and [`load`].
pub fn save(db: &Database) -> (r: String)
    ensures
        r@ == spec_save(db.deep_view()),
{
    let mut out = String::new();
    write_kind(db.kind, &mut out);
    write_str(&db.name, &mut out);
    write_nat(db.tables.len() as u64, &mut out);
    write_table_list(&db.tables, &mut out);
    proof {
        assert(out@ =~= spec_save(db.deep_view()));
    }
    out
}

/// The value of a digit character, decided by inspection.
fn digit_of(c: char) -> (r: Option<u64>)
    ensures
        r matches Some(d) ==> is_digit_char(c) && d < 10 && d as nat == digit_val(c),
        r is None ==> !is_digit_char(c),
{
    match c {
        '0' => Some(0),
        '1' => Some(1),
        '2' => Some(2),
        '3' => Some(3),
        '4' => Some(4),
        '5' => Some(5),
        '6' => Some(6),
        '7' => Some(7),
        '8' => Some(8),
        '9' => Some(9),
        _ => None,
    }
}

/// Parses a number at `i`.
fn parse_nat(v: &Vec<char>, i: usize) -> (r: Result<(u64, usize), SnapshotError>)
    requires
        i <= v@.len(),
    ensures
        r matches Ok((n, j)) ==> i <= j <= v@.len() && dec_nat(v@.skip(i as int)) == Some(
            (n as nat, v@.skip(j as int)),
        ),
        r is Err ==> dec_nat(v@.skip(i as int)) is None,
{
    let mut acc: u64 = 0;
    let mut j: usize = i;
    loop
        invariant
            i <= j <= v@.len(),
            dec_nat_acc(v@.skip(i as int), 0) == dec_nat_acc(v@.skip(j as int), acc as nat),
        decreases v@.len() - j,
    {
        if j == v.len() {
            proof {
                assert(v@.skip(j as int).len() == 0);
            }
            return Err(SnapshotError::Parse);
        }
        let c = v[j];
        proof {
            assert(v@.skip(j as int)[0] == v@[j as int]);
        }
        match digit_of(c) {
            Some(d) => {
                let m = match acc.checked_mul(10) {
                    Some(m) => m,
                    None => {
                        return Err(SnapshotError::Parse);
                    },
                };
                let a2 = match m.checked_add(d) {
                    Some(x) => x,
                    None => {
                        return Err(SnapshotError::Parse);
                    },
                };
                proof {
                    assert(v@.skip(j as int).skip(1) =~= v@.skip(j as int + 1));
                }
                acc = a2;
                j += 1;
            },
            None => {
                if c == ':' {
                    proof {
                        assert(v@.skip(j as int).skip(1) =~= v@.skip(j as int + 1));
                    }
                    return Ok((acc, j + 1));
                }
                return Err(SnapshotError::Parse);
            },
        }
    }
}

/// Parses a length-prefixed string at `i`.
fn parse_string(v: &Vec<char>, i: usize) -> (r: Result<(String, usize), SnapshotError>)
    requires
        i <= v@.len(),
    ensures
        r matches Ok((s, j)) ==> i <= j <= v@.len() && dec_str(v@.skip(i as int)) == Some(
            (s@, v@.skip(j as int)),
        ),
        r is Err ==> dec_str(v@.skip(i as int)) is None,
{
    let (n, j) = match parse_nat(v, i) {
        Ok(p) => p,
        Err(e) => {
            return Err(e);
        },
    };
    let remaining = v.len() - j;
    if n > remaining as u64 {
        return Err(SnapshotError::Parse);
    }
    let len = n as usize;
    let mut buf: Vec<char> = Vec::new();
    let mut k: usize = 0;
    while k < len
        invariant
            k <= len,
            j + len <= v@.len(),
            v@.len() <= usize::MAX,
            buf@ =~= v@.subrange(j as int, j as int + k as int),
        decreases len - k,
    {
        buf.push(v[j + k]);
        k += 1;
    }
    let s = chars_to_string(&buf);
    proof {
        assert(v@.skip(j as int).take(len as int) =~= v@.subrange(j as int, j as int + len as int));
        assert(v@.skip(j as int).skip(len as int) =~= v@.skip(j as int + len as int));
    }
    Ok((s, j + len))
}

/// Parses a flag at `i`.
fn parse_bool(v: &Vec<char>, i: usize) -> (r: Result<(bool, usize), SnapshotError>)
    requires
        i <= v@.len(),
    ensures
        r matches Ok((b, j)) ==> i <= j <= v@.len() && dec_bool(v@.skip(i as int)) == Some(
            (b, v@.skip(j as int)),
        ),
        r is Err ==> dec_bool(v@.skip(i as int)) is None,
{
    if i == v.len() {
        proof {
            assert(v@.skip(i as int).len() == 0);
        }
        return Err(SnapshotError::Parse);
    }
    proof {
        assert(v@.skip(i as int)[0] == v@[i as int]);
        assert(v@.skip(i as int).skip(1) =~= v@.skip(i as int + 1));
    }
    let c = v[i];
    if c == 'T' {
        Ok((true, i + 1))
    } else if c == 'F' {
        Ok((false, i + 1))
    } else {
        Err(SnapshotError::Parse)
    }
}

/// Parses an engine kind at `i`.
fn parse_kind(v: &Vec<char>, i: usize) -> (r: Result<(DatabaseKind, usize), SnapshotError>)
    requires
        i <= v@.len(),
    ensures
        r matches Ok((k, j)) ==> i <= j <= v@.len() && dec_kind(v@.skip(i as int)) == Some(
            (k, v@.skip(j as int)),
        ),
        r is Err ==> dec_kind(v@.skip(i as int)) is None,
{
    if i == v.len() {
        proof {
            assert(v@.skip(i as int).len() == 0);
        }
        return Err(SnapshotError::Parse);
    }
    proof {
        assert(v@.skip(i as int)[0] == v@[i as int]);
        assert(v@.skip(i as int).skip(1) =~= v@.skip(i as int + 1));
    }
    let c = v[i];
    if c == 'P' {
        Ok((DatabaseKind::Postgres, i + 1))
    } else if c == 'M' {
        Ok((DatabaseKind::MySql, i + 1))
    } else if c == 'A' {
        Ok((DatabaseKind::MariaDb, i + 1))
    } else if c == 'L' {
        Ok((DatabaseKind::SqLite, i + 1))
    } else {
        Err(SnapshotError::Parse)
    }
}

/// Parses a reference at `i`.
fn parse_reference(v: &Vec<char>, i: usize) -> (r: Result<(Reference, usize), SnapshotError>)
    requires
        i <= v@.len(),
    ensures
        r matches Ok((x, j)) ==> i <= j <= v@.len() && dec_ref(v@.skip(i as int)) == Some(
            (x.deep_view(), v@.skip(j as int)),
        ),
        r is Err ==> dec_ref(v@.skip(i as int)) is None,
{
    let (table, j1) = match parse_string(v, i) {
        Ok(p) => p,
        Err(e) => {
            return Err(e);
        },
    };
    let (column, j2) = match parse_string(v, j1) {
        Ok(p) => p,
        Err(e) => {
            return Err(e);
        },
    };
    Ok((Reference { table, column }, j2))
}

/// Parses an optional reference at `i`.
fn parse_opt_reference(v: &Vec<char>, i: usize) -> (r: Result<
    (Option<Reference>, usize),
    SnapshotError,
>)
    requires
        i <= v@.len(),
    ensures
        r matches Ok((o, j)) ==> i <= j <= v@.len() && dec_opt_ref(v@.skip(i as int)) == Some(
            (o.deep_view(), v@.skip(j as int)),
        ),
        r is Err ==> dec_opt_ref(v@.skip(i as int)) is None,
{
    if i == v.len() {
        proof {
            assert(v@.skip(i as int).len() == 0);
        }
        return Err(SnapshotError::Parse);
    }
    proof {
        assert(v@.skip(i as int)[0] == v@[i as int]);
        assert(v@.skip(i as int).skip(1) =~= v@.skip(i as int + 1));
    }
    let c = v[i];
    if c == 'N' {
        Ok((None, i + 1))
    } else if c == 'S' {
        let (x, j) = match parse_reference(v, i + 1) {
            Ok(p) => p,
            Err(e) => {
                return Err(e);
            },
        };
        Ok((Some(x), j))
    } else {
        Err(SnapshotError::Parse)
    }
}

/// Parses `n` references at `i`.
fn parse_ref_list(v: &Vec<char>, i: usize, n: u64) -> (r: Result<
    (Vec<Reference>, usize),
    SnapshotError,
>)
    requires
        i <= v@.len(),
    ensures
        r matches Ok((rs, j)) ==> i <= j <= v@.len() && dec_ref_list(
            v@.skip(i as int),
            n as nat,
            Seq::empty(),
        ) == Some((rs.deep_view(), v@.skip(j as int))),
        r is Err ==> dec_ref_list(v@.skip(i as int), n as nat, Seq::empty()) is None,
{
    let mut out: Vec<Reference> = Vec::new();
    let mut j: usize = i;
    let mut k: u64 = 0;
    proof {
        assert(out.deep_view() =~= Seq::<ReferenceView>::empty());
    }
    while k < n
        invariant
            k <= n,
            i <= j <= v@.len(),
            dec_ref_list(v@.skip(i as int), n as nat, Seq::empty()) == dec_ref_list(
                v@.skip(j as int),
                (n - k) as nat,
                out.deep_view(),
            ),
        decreases n - k,
    {
        let (x, j2) = match parse_reference(v, j) {
            Ok(p) => p,
            Err(e) => {
                return Err(e);
            },
        };
        let ghost pre = out.deep_view();
        let ghost xv = x.deep_view();
        out.push(x);
        proof {
            assert(out.deep_view() =~= pre.push(xv));
        }
        j = j2;
        k += 1;
    }
    Ok((out, j))
}

/// Parses a column at `i`.
fn parse_column(v: &Vec<char>, i: usize) -> (r: Result<(Column, usize), SnapshotError>)
    requires
        i <= v@.len(),
    ensures
        r matches Ok((c, j)) ==> i <= j <= v@.len() && dec_col(v@.skip(i as int)) == Some(
            (c.deep_view(), v@.skip(j as int)),
        ),
        r is Err ==> dec_col(v@.skip(i as int)) is None,
{
    let (name, j1) = match parse_string(v, i) {
        Ok(p) => p,
        Err(e) => {
            return Err(e);
        },
    };
    let (kind, j2) = match parse_string(v, j1) {
        Ok(p) => p,
        Err(e) => {
            return Err(e);
        },
    };
    let (is_primary_key, j3) = match parse_bool(v, j2) {
        Ok(p) => p,
        Err(e) => {
            return Err(e);
        },
    };
    let (optional, j4) = match parse_bool(v, j3) {
        Ok(p) => p,
        Err(e) => {
            return Err(e);
        },
    };
    let (references, j5) = match parse_opt_reference(v, j4) {
        Ok(p) => p,
        Err(e) => {
            return Err(e);
        },
    };
    let (n, j6) = match parse_nat(v, j5) {
        Ok(p) => p,
        Err(e) => {
            return Err(e);
        },
    };
    let (referenced_by, j7) = match parse_ref_list(v, j6, n) {
        Ok(p) => p,
        Err(e) => {
            return Err(e);
        },
    };
    Ok((Column { name, kind, is_primary_key, optional, referenced_by, references }, j7))
}

/// Parses `n` columns at `i`.
fn parse_col_list(v: &Vec<char>, i: usize, n: u64) -> (r: Result<
    (Vec<Column>, usize),
    SnapshotError,
>)
    requires
        i <= v@.len(),
    ensures
        r matches Ok((cs, j)) ==> i <= j <= v@.len() && dec_col_list(
            v@.skip(i as int),
            n as nat,
            Seq::empty(),
        ) == Some((cs.deep_view(), v@.skip(j as int))),
        r is Err ==> dec_col_list(v@.skip(i as int), n as nat, Seq::empty()) is None,
{
    let mut out: Vec<Column> = Vec::new();
    let mut j: usize = i;
    let mut k: u64 = 0;
    proof {
        assert(out.deep_view() =~= Seq::<ColumnView>::empty());
    }
    while k < n
        invariant
            k <= n,
            i <= j <= v@.len(),
            dec_col_list(v@.skip(i as int), n as nat, Seq::empty()) == dec_col_list(
                v@.skip(j as int),
                (n - k) as nat,
                out.deep_view(),
            ),
        decreases n - k,
    {
        let (x, j2) = match parse_column(v, j) {
            Ok(p) => p,
            Err(e) => {
                return Err(e);
            },
        };
        let ghost pre = out.deep_view();
        let ghost xv = x.deep_view();
        out.push(x);
        proof {
            assert(out.deep_view() =~= pre.push(xv));
        }
        j = j2;
        k += 1;
    }
    Ok((out, j))
}

/// Parses a table at `i`.
fn parse_table(v: &Vec<char>, i: usize) -> (r: Result<(Table, usize), SnapshotError>)
    requires
        i <= v@.len(),
    ensures
        r matches Ok((t, j)) ==> i <= j <= v@.len() && dec_table(v@.skip(i as int)) == Some(
            (t.deep_view(), v@.skip(j as int)),
        ),
        r is Err ==> dec_table(v@.skip(i as int)) is None,
{
    let (name, j1) = match parse_string(v, i) {
        Ok(p) => p,
        Err(e) => {
            return Err(e);
        },
    };
    let (n, j2) = match parse_nat(v, j1) {
        Ok(p) => p,
        Err(e) => {
            return Err(e);
        },
    };
    let (columns, j3) = match parse_col_list(v, j2, n) {
        Ok(p) => p,
        Err(e) => {
            return Err(e);
        },
    };
    Ok((Table { name, columns }, j3))
}

/// Parses `n` tables at `i`.
fn parse_table_list(v: &Vec<char>, i: usize, n: u64) -> (r: Result<
    (Vec<Table>, usize),
    SnapshotError,
>)
    requires
        i <= v@.len(),
    ensures
        r matches Ok((ts, j)) ==> i <= j <= v@.len() && dec_table_list(
            v@.skip(i as int),
            n as nat,
            Seq::empty(),
        ) == Some((ts.deep_view(), v@.skip(j as int))),
        r is Err ==> dec_table_list(v@.skip(i as int), n as nat, Seq::empty()) is None,
{
    let mut out: Vec<Table> = Vec::new();
    let mut j: usize = i;
    let mut k: u64 = 0;
    proof {
        assert(out.deep_view() =~= Seq::<TableView>::empty());
    }
    while k < n
        invariant
            k <= n,
            i <= j <= v@.len(),
            dec_table_list(v@.skip(i as int), n as nat, Seq::empty()) == dec_table_list(
                v@.skip(j as int),
                (n - k) as nat,
                out.deep_view(),
            ),
        decreases n - k,
    {
        let (x, j2) = match parse_table(v, j) {
            Ok(p) => p,
            Err(e) => {
                return Err(e);
            },
        };
        let ghost pre = out.deep_view();
        let ghost xv = x.deep_view();
        out.push(x);
        proof {
            assert(out.deep_view() =~= pre.push(xv));
        }
        j = j2;
        k += 1;
    }
    Ok((out, j))
}

/// Restores a schema from its snapshot text: succeeds exactly on the texts
/// the grammar admits and yields exactly the schema the text encodes;
/// trailing text is malformed.
pub fn load(text: &str) -> (r: Result<Database, SnapshotError>)
    ensures
        r matches Ok(db) ==> spec_load(text@) == Some(db.deep_view()),
        r is Err ==> spec_load(text@) is None,
{
    let v = str_chars(text);
    proof {
        assert(v@.skip(0) =~= v@);
    }
    let (kind, j1) = match parse_kind(&v, 0) {
        Ok(p) => p,
        Err(e) => {
            return Err(e);
        },
    };
    let (name, j2) = match parse_string(&v, j1) {
        Ok(p) => p,
        Err(e) => {
            return Err(e);
        },
    };
    let (n, j3) = match parse_nat(&v, j2) {
        Ok(p) => p,
        Err(e) => {
            return Err(e);
        },
    };
    let (tables, j4) = match parse_table_list(&v, j3, n) {
        Ok(p) => p,
        Err(e) => {
            return Err(e);
        },
    };
    if j4 != v.len() {
        proof {
            assert(v@.skip(j4 as int).len() > 0);
        }
        return Err(SnapshotError::Parse);
    }
    proof {
        assert(v@.skip(j4 as int).len() == 0);
    }
    Ok(Database { kind, name, tables })
}

/// Round-trip law: loading a saved snapshot yields exactly the schema it
/// was saved from — empty schemas, schemas without links, and
/// self-referential schemas included.
pub proof fn lemma_snapshot_round_trip(s: SchemaView)
    requires
        bounded_schema(s),
    ensures
        spec_load(spec_save(s)) == Some(s),
{
    let p1 = enc_kind(s.kind);
    let p2 = enc_str(s.name);
    let p3 = enc_nat(s.tables.len());
    let p4 = enc_table_list(s.tables);
    let empty = Seq::<char>::empty();
    assert(spec_save(s) =~= p1 + (p2 + (p3 + (p4 + empty))));
    lemma_dec_enc_kind(s.kind, p2 + (p3 + (p4 + empty)));
    lemma_dec_enc_str(s.name, p3 + (p4 + empty));
    lemma_dec_enc_nat(s.tables.len(), p4 + empty);
    assert(p4 + empty =~= p4 + Seq::<char>::empty());
    lemma_dec_enc_table_list(s.tables, empty, Seq::empty());
    assert(Seq::empty() + s.tables =~= s.tables);
    assert(s == (SchemaView { kind: s.kind, name: s.name, tables: s.tables }));
}

} // verus!
