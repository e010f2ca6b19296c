//! Properties of loading and appending that hold for every input.
use vstd::prelude::*;
use crate::cache::{
    accepted, append_output, column_of, count_accepted, is_first_column, name_algo, name_hash,
    name_path, name_size, name_time, spec_parse_row, entry_fields, entry_key, header_names, load_rows,
    EntryView, KeyView,
};
use crate::path::{is_absolute, spec_normalize};
use crate::record::{
    Algorithm,
    all_digits, decimal, digit_chars, digit_value, digits_value, is_digit, spec_parse_u64,
    spec_valid_hash,
};
use crate::table::csv_row;

verus! {

/// A record that a row adds is found under its key once the file is loaded,
/// provided no later row of the file adds a record under the same key.
pub proof fn lemma_loaded_record_found(
    m: Map<KeyView, Seq<char>>,
    h: Seq<Seq<char>>,
    rows: Seq<Option<Seq<Seq<char>>>>,
    source: Seq<char>,
    base: Seq<char>,
    i: int,
)
    requires
        0 <= i < rows.len(),
        accepted(h, rows[i]) is Some,
        forall|j: int|
            i < j < rows.len() && (#[trigger] accepted(h, rows[j])) is Some ==> entry_key(
                accepted(h, rows[j])->Some_0,
                source,
                base,
            ) != entry_key(accepted(h, rows[i])->Some_0, source, base),
    ensures
        ({
            let e = accepted(h, rows[i])->Some_0;
            let loaded = load_rows(m, h, rows, source, base);
            loaded.contains_key(entry_key(e, source, base)) && loaded[entry_key(e, source, base)]
                == e.4
        }),
    decreases rows.len(),
{
    let e = accepted(h, rows[i])->Some_0;
    let k = entry_key(e, source, base);
    if i < rows.len() - 1 {
        let rest = rows.drop_last();
        assert forall|j: int|
            i < j < rest.len() && (#[trigger] accepted(h, rest[j])) is Some implies entry_key(
                accepted(h, rest[j])->Some_0,
                source,
                base,
            ) != k by {
            assert(rest[j] == rows[j]);
        }
        lemma_loaded_record_found(m, h, rest, source, base, i);
        assert(accepted(h, rows.last()) is Some ==> entry_key(
            accepted(h, rows.last())->Some_0,
            source,
            base,
        ) != k) by {
            assert(rows.last() == rows[rows.len() - 1]);
        }
    }
}

/// Loading a file whose rows were merged after anything else leaves, under
/// each key that the file itself gives, the value that the file gives:
/// of two loads, the later one wins.
pub proof fn lemma_last_load_wins(
    m: Map<KeyView, Seq<char>>,
    h: Seq<Seq<char>>,
    rows: Seq<Option<Seq<Seq<char>>>>,
    source: Seq<char>,
    base: Seq<char>,
    k: KeyView,
)
    requires
        load_rows(Map::empty(), h, rows, source, base).contains_key(k),
    ensures
        load_rows(m, h, rows, source, base).contains_key(k),
        load_rows(m, h, rows, source, base)[k] == load_rows(Map::empty(), h, rows, source, base)[k],
    decreases rows.len(),
{
    if rows.len() > 0 {
        let rest = rows.drop_last();
        match accepted(h, rows.last()) {
            Some(e) => {
                if entry_key(e, source, base) != k {
                    lemma_last_load_wins(m, h, rest, source, base, k);
                }
            },
            None => {
                lemma_last_load_wins(m, h, rest, source, base, k);
            },
        }
    }
}

/// At most one record is added per row.
pub proof fn lemma_count_at_most_rows(h: Seq<Seq<char>>, rows: Seq<Option<Seq<Seq<char>>>>)
    ensures
        count_accepted(h, rows) <= rows.len(),
    decreases rows.len(),
{
    if rows.len() > 0 {
        lemma_count_at_most_rows(h, rows.drop_last());
    }
}

/// A row that adds no record (unreadable, malformed, or with a digest
/// that is invalid for its algorithm) makes the count fall short of the
/// number of rows.
pub proof fn lemma_rejected_row_not_counted(
    h: Seq<Seq<char>>,
    rows: Seq<Option<Seq<Seq<char>>>>,
    i: int,
)
    requires
        0 <= i < rows.len(),
        accepted(h, rows[i]) is None,
    ensures
        count_accepted(h, rows) < rows.len(),
    decreases rows.len(),
{
    let rest = rows.drop_last();
    if i == rows.len() - 1 {
        lemma_count_at_most_rows(h, rest);
    } else {
        assert(rest[i] == rows[i]);
        lemma_rejected_row_not_counted(h, rest, i);
    }
}

proof fn lemma_key_never_added(
    m: Map<KeyView, Seq<char>>,
    h: Seq<Seq<char>>,
    rows: Seq<Option<Seq<Seq<char>>>>,
    source: Seq<char>,
    base: Seq<char>,
    k: KeyView,
)
    requires
        !m.contains_key(k),
        forall|j: int|
            0 <= j < rows.len() && (#[trigger] accepted(h, rows[j])) is Some ==> entry_key(
                accepted(h, rows[j])->Some_0,
                source,
                base,
            ) != k,
    ensures
        !load_rows(m, h, rows, source, base).contains_key(k),
    decreases rows.len(),
{
    if rows.len() > 0 {
        let rest = rows.drop_last();
        assert forall|j: int|
            0 <= j < rest.len() && (#[trigger] accepted(h, rest[j])) is Some implies entry_key(
                accepted(h, rest[j])->Some_0,
                source,
                base,
            ) != k by {
            assert(rest[j] == rows[j]);
        }
        lemma_key_never_added(m, h, rest, source, base, k);
        assert(rows.last() == rows[rows.len() - 1]);
    }
}

/// A row whose digest is invalid for its algorithm adds nothing: where
/// neither the cache before nor any other row holds its key, the key is
/// absent after the load.
pub proof fn lemma_invalid_hash_absent(
    m: Map<KeyView, Seq<char>>,
    h: Seq<Seq<char>>,
    rows: Seq<Option<Seq<Seq<char>>>>,
    source: Seq<char>,
    base: Seq<char>,
    i: int,
    e: EntryView,
)
    requires
        0 <= i < rows.len(),
        rows[i] is Some,
        spec_parse_row(h, rows[i]->Some_0) == Some(e),
        !spec_valid_hash(e.4, e.3),
        !m.contains_key(entry_key(e, source, base)),
        forall|j: int|
            0 <= j < rows.len() && j != i && (#[trigger] accepted(h, rows[j])) is Some
                ==> entry_key(accepted(h, rows[j])->Some_0, source, base) != entry_key(
                e,
                source,
                base,
            ),
    ensures
        !load_rows(m, h, rows, source, base).contains_key(entry_key(e, source, base)),
{
    assert(accepted(h, rows[i]) is None);
    lemma_key_never_added(m, h, rows, source, base, entry_key(e, source, base));
}

/// A row that adds no record changes nothing: the load gives the same map
/// and the same count as the file without that row, so the rows after it
/// are merged as if it were not there.
pub proof fn lemma_rejected_row_skipped(
    m: Map<KeyView, Seq<char>>,
    h: Seq<Seq<char>>,
    rows: Seq<Option<Seq<Seq<char>>>>,
    source: Seq<char>,
    base: Seq<char>,
    i: int,
)
    requires
        0 <= i < rows.len(),
        accepted(h, rows[i]) is None,
    ensures
        load_rows(m, h, rows, source, base) == load_rows(m, h, rows.remove(i), source, base),
        count_accepted(h, rows) == count_accepted(h, rows.remove(i)),
    decreases rows.len(),
{
    let rest = rows.drop_last();
    if i == rows.len() - 1 {
        assert(rows.remove(i) =~= rest);
    } else {
        assert(rest[i] == rows[i]);
        lemma_rejected_row_skipped(m, h, rest, source, base, i);
        assert(rows.remove(i).drop_last() =~= rest.remove(i));
        assert(rows.remove(i).last() == rows.last());
    }
}

/// Absolute paths are keyed as written.
pub proof fn lemma_absolute_path_kept(p: Seq<char>, source: Seq<char>, base: Seq<char>)
    requires
        is_absolute(p),
    ensures
        spec_normalize(p, source, base) == p,
{
}

/// Appending to an empty or missing file writes the header row and then
/// the record; appending to a file that already holds something writes the
/// record's row alone. Two appends thus leave one header and two rows.
pub proof fn lemma_header_written_once(e1: EntryView, e2: EntryView, n: u64)
    requires
        n > 0,
    ensures
        append_output(e1, 0) == csv_row(header_names()) + csv_row(entry_fields(e1)),
        append_output(e2, n) == csv_row(entry_fields(e2)),
        append_output(e1, 0) + append_output(e2, n) == csv_row(header_names()) + csv_row(
            entry_fields(e1),
        ) + csv_row(entry_fields(e2)),
{
    assert(append_output(e2, n) =~= csv_row(entry_fields(e2)));
}

proof fn lemma_digit_char(k: int)
    requires
        0 <= k < 10,
    ensures
        is_digit(digit_chars()[k]),
        digit_value(digit_chars()[k]) == k,
{
    let d = digit_chars();
    if k == 0 {
        assert(d[0] == '0');
    } else if k == 1 {
        assert(d[1] == '1');
    } else if k == 2 {
        assert(d[2] == '2');
    } else if k == 3 {
        assert(d[3] == '3');
    } else if k == 4 {
        assert(d[4] == '4');
    } else if k == 5 {
        assert(d[5] == '5');
    } else if k == 6 {
        assert(d[6] == '6');
    } else if k == 7 {
        assert(d[7] == '7');
    } else if k == 8 {
        assert(d[8] == '8');
    } else {
        assert(d[9] == '9');
    }
}

proof fn lemma_decimal_digits(n: nat)
    ensures
        decimal(n).len() > 0,
        all_digits(decimal(n)),
        digits_value(decimal(n)) == n,
    decreases n,
{
    if n < 10 {
        lemma_digit_char(n as int);
        assert(decimal(n).drop_last() =~= Seq::<char>::empty());
        assert(digits_value(decimal(n).drop_last()) == 0);
        assert(decimal(n).last() == digit_chars()[n as int]);
    } else {
        lemma_decimal_digits(n / 10);
        lemma_digit_char((n % 10) as int);
        let s = decimal(n);
        assert(s.drop_last() =~= decimal(n / 10));
        assert(s.last() == digit_chars()[(n % 10) as int]);
        assert(digits_value(s) == (n / 10) * 10 + n % 10);
        assert forall|i: int| 0 <= i < s.len() implies is_digit(#[trigger] s[i]) by {
            if i < s.len() - 1 {
                assert(s[i] == decimal(n / 10)[i]);
            }
        }
    }
}

/// A size or time written as a record field reads back as the same number.
pub proof fn lemma_decimal_parses_back(n: u64)
    ensures
        spec_parse_u64(decimal(n as nat)) == Some(n),
{
    lemma_decimal_digits(n as nat);
    let s = decimal(n as nat);
    assert(is_digit(s[0]));
}

proof fn lemma_first_column(h: Seq<Seq<char>>, name: Seq<char>, i: int)
    requires
        is_first_column(h, name, i),
    ensures
        column_of(h, name) == Some(i),
{
    let c = choose|c: int| is_first_column(h, name, c);
    assert(c == i) by {
        if c < i {
            assert(h[c] == name);
        } else if c > i {
            assert(h[i] == name);
        }
    }
}

/// A tag written as a record field reads back as the same tag.
pub proof fn lemma_algorithm_name_parses_back(a: Algorithm)
    ensures
        Algorithm::spec_from_name(a.spec_name()) == Some(a),
{
    assert(Algorithm::SHA1.spec_name() != Algorithm::MD5.spec_name()) by {
        assert(Algorithm::SHA1.spec_name().len() != Algorithm::MD5.spec_name().len());
    }
    assert(Algorithm::SHA256.spec_name() != Algorithm::MD5.spec_name()) by {
        assert(Algorithm::SHA256.spec_name().len() != Algorithm::MD5.spec_name().len());
    }
    assert(Algorithm::SHA256.spec_name() != Algorithm::SHA1.spec_name()) by {
        assert(Algorithm::SHA256.spec_name().len() != Algorithm::SHA1.spec_name().len());
    }
    assert(Algorithm::SHA512.spec_name() != Algorithm::MD5.spec_name()) by {
        assert(Algorithm::SHA512.spec_name().len() != Algorithm::MD5.spec_name().len());
    }
    assert(Algorithm::SHA512.spec_name() != Algorithm::SHA1.spec_name()) by {
        assert(Algorithm::SHA512.spec_name().len() != Algorithm::SHA1.spec_name().len());
    }
    assert(Algorithm::SHA512.spec_name() != Algorithm::SHA256.spec_name()) by {
        assert(Algorithm::SHA512.spec_name()[3] != Algorithm::SHA256.spec_name()[3]);
    }
}

/// The fields that `append` writes for a record, read back under the
/// header that it writes, give the same record again.
pub proof fn lemma_written_fields_parse_back(e: EntryView)
    ensures
        spec_parse_row(header_names(), entry_fields(e)) == Some(e),
{
    let h = header_names();
    let f = entry_fields(e);
    assert(h[0] == name_path());
    assert(h[1] == name_size());
    assert(h[2] == name_time());
    assert(h[3] == name_algo());
    assert(h[4] == name_hash());
    assert(name_size()[0] != name_path()[0]);
    assert(name_time()[0] != name_path()[0]);
    assert(name_time()[0] != name_size()[0]);
    assert(name_algo()[0] != name_path()[0]);
    assert(name_algo()[0] != name_size()[0]);
    assert(name_algo()[0] != name_time()[0]);
    assert(name_hash()[0] != name_path()[0]);
    assert(name_hash()[0] != name_size()[0]);
    assert(name_hash()[0] != name_time()[0]);
    assert(name_hash()[0] != name_algo()[0]);
    lemma_first_column(h, name_path(), 0);
    lemma_first_column(h, name_size(), 1);
    lemma_first_column(h, name_time(), 2);
    lemma_first_column(h, name_algo(), 3);
    lemma_first_column(h, name_hash(), 4);
    lemma_decimal_parses_back(e.1);
    lemma_decimal_parses_back(e.2);
    lemma_algorithm_name_parses_back(e.3);
    assert(f[1] == decimal(e.1 as nat));
    assert(f[2] == decimal(e.2 as nat));
    assert(f[3] == e.3.spec_name());
}

} // verus!
