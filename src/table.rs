//! The exchange table: one tab-delimited row per file under a fixed header.

use vstd::prelude::*;
use crate::attributes::{AttributesView, FileAttributes, FileAttributesView};
use crate::error::{SyncError, TableError};
use crate::text::{
    decimal, i32_to_string, join_commas, join_with_commas, lemma_parse_i32_decimal,
    lemma_parse_u32_decimal, lemma_split_join, lemma_split_pieces, no_comma, parse_i32,
    parse_i32_str, parse_u32, parse_u32_str, same_text, signed_decimal, split_commas,
    split_on_commas, u32_to_string,
};

verus! {

/// The column names, in order.
pub open spec fn header_row() -> Seq<Seq<char>> {
    seq![
        seq!['p', 'a', 't', 'h'],
        seq!['a', 'l', 'b', 'u', 'm'],
        seq!['a', 'r', 't', 'i', 's', 't'],
        seq!['t', 'i', 't', 'l', 'e'],
        seq!['t', 'r', 'a', 'c', 'k'],
        seq!['y', 'e', 'a', 'r'],
    ]
}

/// An optional text as a field: empty where absent.
pub open spec fn text_field(o: Option<Seq<char>>) -> Seq<char> {
    match o {
        Some(s) => s,
        None => Seq::empty(),
    }
}

/// The fields of one record's row.
pub open spec fn row_of(f: FileAttributesView) -> Seq<Seq<char>> {
    seq![
        f.path,
        text_field(f.attrs.album),
        join_commas(f.attrs.artist),
        text_field(f.attrs.title),
        match f.attrs.track {
            Some(t) => decimal(t as nat),
            None => Seq::empty(),
        },
        match f.attrs.year {
            Some(y) => signed_decimal(y as int),
            None => Seq::empty(),
        },
    ]
}

/// A field as an optional text: absent where empty.
pub open spec fn field_text(s: Seq<char>) -> Option<Seq<char>> {
    if s.len() == 0 {
        None
    } else {
        Some(s)
    }
}

/// A field as artists: none where empty, else the pieces between commas.
pub open spec fn field_artists(s: Seq<char>) -> Seq<Seq<char>> {
    if s.len() == 0 {
        Seq::empty()
    } else {
        split_commas(s)
    }
}

/// The record that data row number `index` holds.
pub open spec fn parse_row(row: Seq<Seq<char>>, index: usize) -> Result<
    FileAttributesView,
    TableError,
> {
    if row.len() != 6 {
        Err(TableError::WrongArity(index))
    } else if row[4].len() > 0 && parse_u32(row[4]).is_none() {
        Err(TableError::BadTrack(index))
    } else if row[5].len() > 0 && parse_i32(row[5]).is_none() {
        Err(TableError::BadYear(index))
    } else {
        Ok(
            FileAttributesView {
                path: row[0],
                attrs: AttributesView {
                    album: field_text(row[1]),
                    artist: field_artists(row[2]),
                    title: field_text(row[3]),
                    track: if row[4].len() == 0 { None } else { parse_u32(row[4]) },
                    year: if row[5].len() == 0 { None } else { parse_i32(row[5]) },
                },
            },
        )
    }
}

/// The records of the first `n` data rows, or the error of the first bad one.
pub open spec fn parse_rows(rows: Seq<Seq<Seq<char>>>, n: nat) -> Result<
    Seq<FileAttributesView>,
    TableError,
>
    decreases n,
{
    if n == 0 {
        Ok(Seq::empty())
    } else {
        match parse_rows(rows, (n - 1) as nat) {
            Err(e) => Err(e),
            Ok(s) => match parse_row(rows[n - 1], (n - 1) as usize) {
                Err(e) => Err(e),
                Ok(f) => Ok(s.push(f)),
            },
        }
    }
}

/// The records of a whole table: nothing for no rows, else the header
/// followed by data rows.
pub open spec fn parse_table(rows: Seq<Seq<Seq<char>>>) -> Result<
    Seq<FileAttributesView>,
    TableError,
> {
    if rows.len() == 0 {
        Ok(Seq::empty())
    } else if rows[0] != header_row() {
        Err(TableError::BadHeader)
    } else {
        parse_rows(rows.drop_first(), (rows.len() - 1) as nat)
    }
}

/// The table's rows for `records`: the header, then one row each in order.
pub open spec fn table_rows(records: Seq<FileAttributesView>) -> Seq<Seq<Seq<char>>> {
    seq![header_row()] + records.map_values(|f: FileAttributesView| row_of(f))
}

/// Records by path, a later record for a path replacing an earlier one.
pub open spec fn indexed(s: Seq<FileAttributesView>) -> Map<Seq<char>, FileAttributesView>
    decreases s.len(),
{
    if s.len() == 0 {
        Map::empty()
    } else {
        indexed(s.drop_last()).insert(s.last().path, s.last())
    }
}

pub open spec fn unique_paths(s: Seq<FileAttributesView>) -> bool {
    forall|i: int, j: int| 0 <= i < j < s.len() ==> s[i].path != s[j].path
}

pub open spec fn views(v: Seq<FileAttributes>) -> Seq<FileAttributesView> {
    v.map_values(|f: FileAttributes| f@)
}

/// Whether every row has as many fields as the first.
pub open spec fn uniform_rows(rows: Seq<Seq<Seq<char>>>) -> bool {
    forall|i: int| 0 <= i < rows.len() ==> (#[trigger] rows[i]).len() == rows[0].len()
}

/// The text a tab-delimited writer produces for `rows`.
pub uninterp spec fn tsv_text(rows: Seq<Seq<Seq<char>>>) -> Seq<char>;

/// The records a tab-delimited reader finds in `text`.
pub uninterp spec fn tsv_records(text: Seq<char>) -> Seq<Seq<Seq<char>>>;

/// Relies on `csv::Writer` with a tab delimiter: each row becomes a record,
/// with fields quoted where the format needs it. Writing into memory fails
/// only on rows of unequal lengths.
#[verifier::external_body]
fn write_tsv(rows: &Vec<Vec<String>>) -> (r: Result<String, csv::Error>)
    ensures
        r matches Ok(s) ==> s@ == tsv_text(rows.deep_view()),
        uniform_rows(rows.deep_view()) ==> r is Ok,
{
    let mut w = csv::WriterBuilder::new().delimiter(b'\t').from_writer(Vec::new());
    for row in rows {
        w.write_record(row)?;
    }
    let bytes = w.into_inner().map_err(|e| csv::Error::from(e.into_error()))?;
    Ok(String::from_utf8_lossy(&bytes).into_owned())
}

/// Relies on `csv::Reader` with a tab delimiter and no header handling: every
/// record of the text, each as its fields. Reading from a string fails only
/// on records of unequal lengths.
#[verifier::external_body]
fn read_tsv(text: &str) -> (r: Result<Vec<Vec<String>>, csv::Error>)
    ensures
        r matches Ok(rows) ==> rows.deep_view() == tsv_records(text@),
        uniform_rows(tsv_records(text@)) ==> r is Ok,
{
    let mut reader = csv::ReaderBuilder::new().delimiter(b'\t').has_headers(false).from_reader(
        text.as_bytes(),
    );
    let mut rows = Vec::new();
    for record in reader.records() {
        rows.push(record?.iter().map(String::from).collect());
    }
    Ok(rows)
}

/// The column names, in order.
pub fn header_fields() -> (r: Vec<String>)
    ensures
        r.deep_view() == header_row(),
{
    proof {
        reveal_strlit("path");
        reveal_strlit("album");
        reveal_strlit("artist");
        reveal_strlit("title");
        reveal_strlit("track");
        reveal_strlit("year");
    }
    let r = vec![
        "path".to_owned(),
        "album".to_owned(),
        "artist".to_owned(),
        "title".to_owned(),
        "track".to_owned(),
        "year".to_owned(),
    ];
    assert(r.deep_view()[0] =~= header_row()[0]);
    assert(r.deep_view()[1] =~= header_row()[1]);
    assert(r.deep_view()[2] =~= header_row()[2]);
    assert(r.deep_view()[3] =~= header_row()[3]);
    assert(r.deep_view()[4] =~= header_row()[4]);
    assert(r.deep_view()[5] =~= header_row()[5]);
    assert(r.deep_view() =~= header_row());
    r
}

fn text_to_field(o: &Option<String>) -> (r: String)
    ensures
        r@ == text_field(crate::attributes::opt_text(*o)),
{
    match o {
        Some(s) => s.clone(),
        None => String::new(),
    }
}

fn field_to_text(s: &String) -> (r: Option<String>)
    ensures
        crate::attributes::opt_text(r) == field_text(s@),
{
    if s.as_str().unicode_len() == 0 {
        None
    } else {
        Some(s.clone())
    }
}

fn rows_equal(a: &Vec<String>, b: &Vec<String>) -> (r: bool)
    ensures
        r == (a.deep_view() == b.deep_view()),
{
    if a.len() != b.len() {
        assert(a.deep_view().len() != b.deep_view().len());
        return false;
    }
    let mut i: usize = 0;
    while i < a.len()
        invariant
            a.len() == b.len(),
            i <= a.len(),
            forall|k: int| 0 <= k < i ==> a.deep_view()[k] == b.deep_view()[k],
        decreases a.len() - i,
    {
        if !same_text(a[i].as_str(), b[i].as_str()) {
            assert(a.deep_view()[i as int] != b.deep_view()[i as int]);
            return false;
        }
        i = i + 1;
    }
    assert(a.deep_view() =~= b.deep_view());
    true
}

impl FileAttributes {
    /// The record's row: path, album, artists joined by commas, title, track
    /// and year, with an empty field for each absent value.
    pub fn to_row(&self) -> (r: Vec<String>)
        ensures
            r.deep_view() == row_of(self@),
    {
        let track = match self.track {
            Some(t) => u32_to_string(t),
            None => String::new(),
        };
        let year = match self.year {
            Some(y) => i32_to_string(y),
            None => String::new(),
        };
        let r = vec![
            self.path.clone(),
            text_to_field(&self.album),
            join_with_commas(&self.artist),
            text_to_field(&self.title),
            track,
            year,
        ];
        assert(r.deep_view() =~= row_of(self@));
        r
    }

    /// The record that data row number `index` holds.
    pub fn from_row(row: &Vec<String>, index: usize) -> (r: Result<FileAttributes, TableError>)
        ensures
            match r {
                Ok(f) => parse_row(row.deep_view(), index) == Ok::<FileAttributesView, TableError>(f@),
                Err(e) => parse_row(row.deep_view(), index) == Err::<FileAttributesView, TableError>(e),
            },
    {
        if row.len() != 6 {
            return Err(TableError::WrongArity(index));
        }
        let ghost dv = row.deep_view();
        assert(dv[4] == row[4]@ && dv[5] == row[5]@ && dv[0] == row[0]@);
        assert(dv[1] == row[1]@ && dv[2] == row[2]@ && dv[3] == row[3]@);
        let track = if row[4].as_str().unicode_len() == 0 {
            None
        } else {
            match parse_u32_str(row[4].as_str()) {
                Some(t) => Some(t),
                None => {
                    return Err(TableError::BadTrack(index));
                },
            }
        };
        let year = if row[5].as_str().unicode_len() == 0 {
            None
        } else {
            match parse_i32_str(row[5].as_str()) {
                Some(y) => Some(y),
                None => {
                    return Err(TableError::BadYear(index));
                },
            }
        };
        let artist = if row[2].as_str().unicode_len() == 0 {
            Vec::new()
        } else {
            split_on_commas(row[2].as_str())
        };
        let f = FileAttributes {
            path: row[0].clone(),
            album: field_to_text(&row[1]),
            artist,
            title: field_to_text(&row[3]),
            track,
            year,
        };
        proof {
            if row[2]@.len() == 0 {
                assert(f.artist.deep_view() =~= Seq::<Seq<char>>::empty());
            }
        }
        Ok(f)
    }
}

proof fn lemma_indexed_unique(s: Seq<FileAttributesView>)
    requires
        unique_paths(s),
    ensures
        forall|i: int| 0 <= i < s.len() ==> #[trigger] indexed(s).contains_key(s[i].path)
            && indexed(s)[s[i].path] == s[i],
        forall|k: Seq<char>| #[trigger] indexed(s).contains_key(k) ==> exists|i: int|
            0 <= i < s.len() && s[i].path == k,
    decreases s.len(),
{
    if s.len() > 0 {
        let t = s.drop_last();
        assert(unique_paths(t)) by {
            assert forall|i: int, j: int| 0 <= i < j < t.len() implies t[i].path != t[j].path by {
                assert(t[i] == s[i] && t[j] == s[j]);
            }
        }
        lemma_indexed_unique(t);
        assert forall|i: int| 0 <= i < s.len() implies #[trigger] indexed(s).contains_key(s[i].path)
            && indexed(s)[s[i].path] == s[i] by {
            if i < s.len() - 1 {
                assert(s[i] == t[i]);
                assert(s[i].path != s[s.len() - 1].path);
                assert(indexed(t).contains_key(t[i].path) && indexed(t)[t[i].path] == t[i]);
            } else {
                assert(s[i] == s.last());
            }
        }
        assert forall|k: Seq<char>| #[trigger] indexed(s).contains_key(k) implies exists|i: int|
            0 <= i < s.len() && s[i].path == k by {
            if k != s.last().path {
                assert(indexed(t).contains_key(k));
                let i = choose|i: int| 0 <= i < t.len() && t[i].path == k;
                assert(s[i] == t[i]);
            } else {
                assert(s[s.len() - 1].path == k);
            }
        }
    }
}

/// Keeps one record per path, the last one given for it.
pub fn index_by_path(records: Vec<FileAttributes>) -> (r: Vec<FileAttributes>)
    ensures
        unique_paths(views(r@)),
        indexed(views(r@)) == indexed(views(records@)),
{
    let ghost all = views(records@);
    let mut rest = records;
    let mut out: Vec<FileAttributes> = Vec::new();
    let ghost mut done: nat = 0;
    proof {
        assert(views(out@) =~= Seq::<FileAttributesView>::empty());
        assert(all.subrange(0, 0) =~= Seq::<FileAttributesView>::empty());
        assert(views(rest@) =~= all.subrange(0, all.len() as int));
    }
    while rest.len() > 0
        invariant
            done <= all.len(),
            views(rest@) == all.subrange(done as int, all.len() as int),
            unique_paths(views(out@)),
            indexed(views(out@)) == indexed(all.subrange(0, done as int)),
        decreases rest.len(),
    {
        let ghost rv = views(rest@);
        let rec = rest.remove(0);
        let ghost x = rec@;
        let ghost before = views(out@);
        proof {
            assert(rv.len() > 0);
            assert(rv[0] == x);
            assert(views(rest@) =~= rv.subrange(1, rv.len() as int));
        }
        let mut j: usize = 0;
        let mut found: Option<usize> = None;
        while j < out.len()
            invariant
                j <= out.len(),
                views(out@) == before,
                x == rec@,
                match found {
                    Some(k) => k < out.len() && before[k as int].path == x.path,
                    None => forall|m: int| 0 <= m < j ==> before[m].path != x.path,
                },
            decreases out.len() - j,
        {
            proof {
                assert(before[j as int].path == out[j as int].path@);
            }
            if found.is_none() && same_text(out[j].path.as_str(), rec.path.as_str()) {
                found = Some(j);
                assert(x.path == rec.path@);
                assert(before[j as int].path == x.path);
            }
            j = j + 1;
        }
        proof {
            assert(rv[0] == all.subrange(done as int, all.len() as int)[0]);
            assert(all[done as int] == x);
            assert(views(rest@) =~= all.subrange((done + 1) as int, all.len() as int));
            assert(all.subrange(0, (done + 1) as int).drop_last() =~= all.subrange(0, done as int));
            lemma_indexed_unique(before);
        }
        match found {
            Some(k) => {
                out.set(k, rec);
                proof {
                    let after = views(out@);
                    assert(after =~= before.update(k as int, x));
                    assert(unique_paths(after)) by {
                        assert forall|a: int, b: int| 0 <= a < b < after.len() implies after[a].path
                            != after[b].path by {
                            assert(after[a].path == before[a].path);
                            assert(after[b].path == before[b].path);
                        }
                    }
                    lemma_indexed_unique(after);
                    assert(indexed(after) =~= indexed(before).insert(x.path, x)) by {
                        assert forall|key: Seq<char>| indexed(after).contains_key(key)
                            == indexed(before).insert(x.path, x).contains_key(key) by {
                            if indexed(after).contains_key(key) {
                                let i = choose|i: int| 0 <= i < after.len() && after[i].path == key;
                                assert(before[i].path == key);
                                assert(indexed(before).contains_key(before[i].path));
                            }
                            if indexed(before).contains_key(key) {
                                let i = choose|i: int| 0 <= i < before.len() && before[i].path == key;
                                assert(after[i].path == key);
                                assert(indexed(after).contains_key(after[i].path));
                            }
                            if key == x.path {
                                assert(indexed(after).contains_key(after[k as int].path));
                            }
                        }
                        assert forall|key: Seq<char>| #[trigger] indexed(after).contains_key(key)
                            implies indexed(after)[key] == indexed(before).insert(x.path, x)[key] by {
                            let i = choose|i: int| 0 <= i < after.len() && after[i].path == key;
                            if i != k {
                                assert(after[i] == before[i]);
                                assert(indexed(before).contains_key(before[i].path));
                            }
                        }
                    }
                }
            },
            None => {
                out.push(rec);
                proof {
                    let after = views(out@);
                    assert(after =~= before.push(x));
                    assert(after.drop_last() =~= before);
                    assert(unique_paths(after)) by {
                        assert forall|a: int, b: int| 0 <= a < b < after.len() implies after[a].path
                            != after[b].path by {
                            if b == after.len() - 1 {
                                assert(after[a] == before[a]);
                            } else {
                                assert(after[a] == before[a] && after[b] == before[b]);
                            }
                        }
                    }
                }
            },
        }
        proof {
            done = done + 1;
        }
    }
    proof {
        assert(all.subrange(0, done as int) =~= all);
    }
    out
}

proof fn lemma_parse_rows_err(rows: Seq<Seq<Seq<char>>>, m: nat, n: nat)
    requires
        m <= n,
        parse_rows(rows, m) is Err,
    ensures
        parse_rows(rows, n) == parse_rows(rows, m),
    decreases n - m,
{
    if m < n {
        lemma_parse_rows_err(rows, m, (n - 1) as nat);
    }
}

/// The records of a table's rows, one per path, the last row for a path
/// winning.
pub fn records_from_rows(rows: &Vec<Vec<String>>) -> (r: Result<Vec<FileAttributes>, TableError>)
    ensures
        match r {
            Ok(v) => parse_table(rows.deep_view()) matches Ok(s) && unique_paths(views(v@))
                && indexed(views(v@)) == indexed(s),
            Err(e) => parse_table(rows.deep_view()) == Err::<Seq<FileAttributesView>, TableError>(e),
        },
{
    let ghost dv = rows.deep_view();
    if rows.len() == 0 {
        let v: Vec<FileAttributes> = Vec::new();
        assert(views(v@) =~= Seq::<FileAttributesView>::empty());
        return Ok(v);
    }
    let header = header_fields();
    if !rows_equal(&rows[0], &header) {
        return Err(TableError::BadHeader);
    }
    let ghost data = dv.drop_first();
    assert(dv[0] == header_row());
    let mut records: Vec<FileAttributes> = Vec::new();
    let mut i: usize = 1;
    assert(views(records@) =~= Seq::<FileAttributesView>::empty());
    while i < rows.len()
        invariant
            1 <= i <= rows.len(),
            dv == rows.deep_view(),
            dv[0] == header_row(),
            data == dv.drop_first(),
            parse_rows(data, (i - 1) as nat) == Ok::<Seq<FileAttributesView>, TableError>(
                views(records@),
            ),
        decreases rows.len() - i,
    {
        assert(data[i - 1] == rows[i as int].deep_view());
        match FileAttributes::from_row(&rows[i], i - 1) {
            Ok(f) => {
                let ghost before = views(records@);
                records.push(f);
                assert(views(records@) =~= before.push(f@));
            },
            Err(e) => {
                proof {
                    assert(parse_rows(data, i as nat) == Err::<Seq<FileAttributesView>, TableError>(e));
                    lemma_parse_rows_err(data, i as nat, (dv.len() - 1) as nat);
                }
                return Err(e);
            },
        }
        i = i + 1;
    }
    Ok(index_by_path(records))
}

/// The exchange table for `records`, in their order.
pub fn encode_table(records: &Vec<FileAttributes>) -> (r: Result<String, SyncError>)
    ensures
        r matches Ok(s) && s@ == tsv_text(table_rows(views(records@))),
{
    let mut rows: Vec<Vec<String>> = Vec::new();
    rows.push(header_fields());
    let mut i: usize = 0;
    while i < records.len()
        invariant
            i <= records.len(),
            rows.deep_view() == table_rows(views(records@).subrange(0, i as int)),
        decreases records.len() - i,
    {
        let ghost before = rows.deep_view();
        rows.push(records[i].to_row());
        assert(rows.deep_view() =~= before.push(row_of(records[i as int]@)));
        assert(table_rows(views(records@).subrange(0, i + 1)) =~= table_rows(
            views(records@).subrange(0, i as int),
        ).push(row_of(records[i as int]@)));
        i = i + 1;
    }
    assert(views(records@).subrange(0, records.len() as int) =~= views(records@));
    assert(uniform_rows(rows.deep_view())) by {
        let t = rows.deep_view();
        assert forall|k: int| 0 <= k < t.len() implies (#[trigger] t[k]).len() == t[0].len() by {
            assert(t[0] == header_row());
            if k > 0 {
                assert(t[k] == row_of(views(records@)[k - 1]));
            }
        }
    }
    match write_tsv(&rows) {
        Ok(s) => Ok(s),
        Err(e) => Err(SyncError::Csv(e)),
    }
}

/// The records of an exchange table, one per path, the last row for a path
/// winning. Nothing is returned unless every row is well formed.
pub fn decode_table(text: &str) -> (r: Result<Vec<FileAttributes>, SyncError>)
    ensures
        match r {
            Ok(v) => parse_table(tsv_records(text@)) matches Ok(s) && unique_paths(views(v@))
                && indexed(views(v@)) == indexed(s),
            Err(SyncError::Table(e)) => parse_table(tsv_records(text@)) == Err::<
                Seq<FileAttributesView>,
                TableError,
            >(e),
            Err(e) => e is Csv,
        },
        r matches Err(SyncError::Csv(_)) ==> !uniform_rows(tsv_records(text@)),
{
    match read_tsv(text) {
        Ok(rows) => match records_from_rows(&rows) {
            Ok(v) => Ok(v),
            Err(e) => Err(SyncError::Table(e)),
        },
        Err(e) => Err(SyncError::Csv(e)),
    }
}

/// A row always reads back as a record.
pub proof fn lemma_row_parses(f: FileAttributesView, index: usize)
    ensures
        parse_row(row_of(f), index) is Ok,
{
    if let Some(t) = f.attrs.track {
        lemma_parse_u32_decimal(t);
        crate::text::lemma_decimal_digits(t as nat);
    }
    if let Some(y) = f.attrs.year {
        lemma_parse_i32_decimal(y);
        if y < 0 {
            assert(signed_decimal(y as int).len() > 0);
        } else {
            crate::text::lemma_decimal_digits(y as nat);
        }
    }
}

proof fn lemma_join_nonempty(parts: Seq<Seq<char>>)
    requires
        parts.len() >= 1,
        parts.last().len() > 0,
    ensures
        join_commas(parts).len() > 0,
{
}

/// A record whose album and title are non-empty, whose track and year are
/// present, and whose artists are non-empty and free of commas, reads back
/// from its row unchanged.
pub proof fn lemma_row_round_trip(f: FileAttributesView, index: usize)
    requires
        f.attrs.album matches Some(a) && a.len() > 0,
        f.attrs.title matches Some(t) && t.len() > 0,
        f.attrs.track is Some,
        f.attrs.year is Some,
        forall|i: int| 0 <= i < f.attrs.artist.len() ==> (#[trigger] f.attrs.artist[i]).len() > 0
            && no_comma(f.attrs.artist[i]),
    ensures
        parse_row(row_of(f), index) == Ok::<FileAttributesView, TableError>(f),
{
    let t = f.attrs.track.unwrap();
    let y = f.attrs.year.unwrap();
    lemma_parse_u32_decimal(t);
    crate::text::lemma_decimal_digits(t as nat);
    lemma_parse_i32_decimal(y);
    if y >= 0 {
        crate::text::lemma_decimal_digits(y as nat);
    }
    let artists = f.attrs.artist;
    if artists.len() > 0 {
        assert(artists.last() == artists[artists.len() - 1]);
        lemma_join_nonempty(artists);
        lemma_split_join(artists);
    } else {
        assert(join_commas(artists).len() == 0);
    }
    let g = parse_row(row_of(f), index)->Ok_0;
    assert(g.attrs.artist == artists);
    assert(g.attrs == f.attrs);
}

/// An artist holding a comma does not survive a row: it comes back as
/// several artists.
pub proof fn lemma_comma_splits_artist(f: FileAttributesView, index: usize, k: int)
    requires
        0 <= k < f.attrs.artist.len(),
        !no_comma(f.attrs.artist[k]),
    ensures
        parse_row(row_of(f), index) matches Ok(g) && g.attrs.artist != f.attrs.artist,
{
    lemma_row_parses(f, index);
    let g = parse_row(row_of(f), index)->Ok_0;
    let field = join_commas(f.attrs.artist);
    if field.len() > 0 {
        lemma_split_pieces(field);
        if g.attrs.artist == f.attrs.artist {
            assert(no_comma(split_commas(field)[k]));
        }
    }
}

/// A record whose one artist is two comma-free names around a comma reads
/// back with those two names as two artists; album, title, track and year
/// still read back as written.
pub proof fn lemma_comma_artist_read_as_two(
    f: FileAttributesView,
    index: usize,
    first: Seq<char>,
    second: Seq<char>,
)
    requires
        f.attrs.album matches Some(a) && a.len() > 0,
        f.attrs.title matches Some(t) && t.len() > 0,
        f.attrs.track is Some,
        f.attrs.year is Some,
        no_comma(first),
        no_comma(second),
        f.attrs.artist == seq![first + seq![','] + second],
    ensures
        parse_row(row_of(f), index) matches Ok(g) && g.path == f.path && g.attrs.album
            == f.attrs.album && g.attrs.title == f.attrs.title && g.attrs.track == f.attrs.track
            && g.attrs.year == f.attrs.year && g.attrs.artist == seq![first, second]
            && g.attrs.artist != f.attrs.artist,
{
    let t = f.attrs.track.unwrap();
    let y = f.attrs.year.unwrap();
    lemma_parse_u32_decimal(t);
    crate::text::lemma_decimal_digits(t as nat);
    lemma_parse_i32_decimal(y);
    if y >= 0 {
        crate::text::lemma_decimal_digits(y as nat);
    }
    let joined = first + seq![','] + second;
    assert(join_commas(f.attrs.artist) == joined);
    assert(joined[first.len() as int] == ',');
    crate::text::lemma_split_after_comma(first, second);
    crate::text::lemma_split_plain(first);
    assert(split_commas(first).push(second) =~= seq![first, second]);
    assert(joined.contains(','));
    assert(!no_comma(f.attrs.artist[0]));
    assert(no_comma(seq![first, second][0]));
}

/// A record with every optional value absent gives a row whose fields but
/// the path are empty, and reads back with every value absent.
pub proof fn lemma_absent_round_trip(f: FileAttributesView, index: usize)
    requires
        f.attrs.album is None,
        f.attrs.artist.len() == 0,
        f.attrs.title is None,
        f.attrs.track is None,
        f.attrs.year is None,
    ensures
        row_of(f) == seq![f.path, Seq::empty(), Seq::empty(), Seq::empty(), Seq::empty(), Seq::empty()],
        parse_row(row_of(f), index) == Ok::<FileAttributesView, TableError>(f),
{
    assert(join_commas(f.attrs.artist) == Seq::<char>::empty());
    assert(row_of(f) =~= seq![f.path, Seq::empty(), Seq::empty(), Seq::empty(), Seq::empty(), Seq::empty()]);
    let g = parse_row(row_of(f), index)->Ok_0;
    assert(g.attrs.artist =~= f.attrs.artist);
}

} // verus!
