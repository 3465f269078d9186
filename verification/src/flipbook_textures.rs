//! The catalogue of bundled flipbook sprite sheets.
//!
//! Sprite-sheet files are named like `fire_burst_8x4.png`: the words of the stem give the
//! display name ("Fire Burst 8x4") and its last `_`-separated part gives the grid
//! ("8x4": eight columns, four rows). From the file names of the bundle directory this
//! module selects the `.png` and `.tga` files, orders them by name, and writes the Rust
//! source of the texture list and of the embedding of each file.
use vstd::prelude::*;

use crate::text::{
    all_digits, is_digit, lemma_decimal_digits, lemma_parse_decimal, chars_of, decimal, eq_ignore_ascii_case, eq_ignore_ascii_case_spec, find_char, find_char_exec,
    lemma_lex_le_antisymmetric, lemma_lex_le_total, lemma_lex_le_transitive, lex_le, lex_le_exec, parse_u32, parse_u32_spec,
    push_char, push_chars, push_decimal, push_str, string_of, rfind_char, rfind_char_exec, slice_chars,
};

verus! {

// ---------------------------------------------------------------------------------------
// Display names
// ---------------------------------------------------------------------------------------

/// The characters that separate the words of a file stem.
pub open spec fn is_word_separator(c: char) -> bool {
    c == '_' || c == '-'
}

/// The upper-case form of `c`, as `char::to_uppercase` gives it (one or more characters).
pub uninterp spec fn char_to_uppercase(c: char) -> Seq<char>;

/// `char::to_uppercase`: the upper-case mapping of `c`, collected into a string. The
/// contract names the result and states nothing else of it.
#[verifier::external_body]
fn to_uppercase_string(c: char) -> (res: String)
    ensures
        res@ == char_to_uppercase(c),
{
    c.to_uppercase().collect()
}

/// What the character at `i` of `stem` becomes in the display name: a separator becomes a
/// space, the first character of a word is upper-cased, any other character is kept.
pub open spec fn display_piece(stem: Seq<char>, i: int) -> Seq<char> {
    if is_word_separator(stem[i]) {
        seq![' ']
    } else if i == 0 || is_word_separator(stem[i - 1]) {
        char_to_uppercase(stem[i])
    } else {
        seq![stem[i]]
    }
}

/// The display name of `stem`: its words split at `_` and `-`, each with its first
/// character upper-cased, joined by single spaces.
pub open spec fn display_name(stem: Seq<char>) -> Seq<char>
    decreases stem.len(),
{
    if stem.len() == 0 {
        Seq::empty()
    } else {
        display_name(stem.drop_last()) + display_piece(stem, stem.len() - 1)
    }
}

proof fn lemma_display_name_take(stem: Seq<char>, i: int)
    requires
        0 <= i < stem.len(),
    ensures
        display_name(stem.take(i + 1)) == display_name(stem.take(i)) + display_piece(stem, i),
{
    let t = stem.take(i + 1);
    assert(t.drop_last() =~= stem.take(i));
    assert(t[i] == stem[i]);
    if i > 0 {
        assert(t[i - 1] == stem[i - 1]);
    }
    assert(display_piece(t, i) == display_piece(stem, i));
}

fn display_name_chars(stem: &Vec<char>) -> (res: String)
    ensures
        res@ == display_name(stem@),
{
    let mut out = String::new();
    let mut i: usize = 0;
    assert(stem@.take(0) =~= Seq::<char>::empty());
    while i < stem.len()
        invariant
            i <= stem.len(),
            out@ == display_name(stem@.take(i as int)),
        decreases stem.len() - i,
    {
        let c = stem[i];
        proof {
            lemma_display_name_take(stem@, i as int);
        }
        if c == '_' || c == '-' {
            push_char(&mut out, ' ');
        } else if i == 0 || stem[i - 1] == '_' || stem[i - 1] == '-' {
            let up = to_uppercase_string(c);
            push_str(&mut out, up.as_str());
        } else {
            push_char(&mut out, c);
        }
        proof {
            assert(out@ =~= display_name(stem@.take(i as int)) + display_piece(stem@, i as int));
        }
        i = i + 1;
    }
    assert(stem@.take(stem.len() as int) =~= stem@);
    out
}

/// A word separator becomes one space between the display names of what stands before and
/// after it, `_` and `-` alike: the word after either separator starts upper-cased as the
/// first word of a stem does.
pub proof fn lemma_display_name_split(a: Seq<char>, sep: char, b: Seq<char>)
    requires
        sep == '_' || sep == '-',
    ensures
        display_name(a + seq![sep] + b) == display_name(a) + seq![' '] + display_name(b),
    decreases b.len(),
{
    let s = a + seq![sep] + b;
    if b.len() == 0 {
        assert(s.drop_last() =~= a);
        assert(display_piece(s, s.len() - 1) == seq![' ']);
        assert(b =~= Seq::<char>::empty());
        assert(display_name(a) + seq![' '] + display_name(b) =~= display_name(a) + seq![' ']);
    } else {
        let bp = b.drop_last();
        lemma_display_name_split(a, sep, bp);
        assert(s.drop_last() =~= a + seq![sep] + bp);
        let i = s.len() - 1;
        let j = b.len() - 1;
        assert(s[i] == b[j]);
        if j > 0 {
            assert(s[i - 1] == b[j - 1]);
        } else {
            assert(s[i - 1] == sep);
        }
        assert(display_piece(s, i) == display_piece(b, j));
        assert(display_name(s) == display_name(a) + seq![' '] + display_name(bp) + display_piece(
            b,
            j,
        ));
        assert(display_name(b) == display_name(bp) + display_piece(b, j));
        assert(display_name(a) + seq![' '] + display_name(bp) + display_piece(b, j)
            =~= display_name(a) + seq![' '] + display_name(b));
    }
}

/// A word without separators keeps its characters, with its first one upper-cased.
pub proof fn lemma_display_name_word(w: Seq<char>)
    requires
        w.len() > 0,
        forall|i: int| 0 <= i < w.len() ==> !is_word_separator(#[trigger] w[i]),
    ensures
        display_name(w) == char_to_uppercase(w[0]) + w.drop_first(),
    decreases w.len(),
{
    let wp = w.drop_last();
    if w.len() == 1 {
        assert(wp =~= Seq::<char>::empty());
        assert(w.drop_first() =~= Seq::<char>::empty());
        assert(display_name(w) == display_name(wp) + display_piece(w, 0));
        assert(display_name(w) =~= char_to_uppercase(w[0]) + w.drop_first());
    } else {
        assert forall|i: int| 0 <= i < wp.len() implies !is_word_separator(#[trigger] wp[i]) by {
            assert(wp[i] == w[i]);
        }
        lemma_display_name_word(wp);
        let n = w.len() - 1;
        assert(!is_word_separator(w[n]));
        assert(!is_word_separator(w[n - 1]));
        assert(display_piece(w, n) == seq![w[n]]);
        assert(wp[0] == w[0]);
        assert(display_name(w) == char_to_uppercase(w[0]) + wp.drop_first() + seq![w[n]]);
        assert(wp.drop_first().push(w[n]) =~= w.drop_first());
        assert(char_to_uppercase(w[0]) + wp.drop_first() + seq![w[n]] =~= char_to_uppercase(w[0])
            + w.drop_first());
    }
}

/// The display name of a file stem: "fire_burst-8x4" becomes "Fire Burst 8x4".
pub fn stem_to_display_name(stem: &str) -> (res: String)
    ensures
        res@ == display_name(stem@),
{
    let cs = chars_of(stem);
    display_name_chars(&cs)
}

// ---------------------------------------------------------------------------------------
// Grid sizes
// ---------------------------------------------------------------------------------------

/// The grid of a file stem: the part after its last `_` read as `<columns>x<rows>`, both
/// positive numbers; a single cell when the stem has no such part.
pub open spec fn grid_size(stem: Seq<char>) -> (u32, u32) {
    match rfind_char(stem, '_') {
        None => (1, 1),
        Some(i) => {
            let grid = stem.skip(i + 1);
            match find_char(grid, 'x') {
                None => (1, 1),
                Some(j) => match (
                    parse_u32_spec(grid.take(j)),
                    parse_u32_spec(grid.skip(j + 1)),
                ) {
                    (Some(c), Some(r)) => if c > 0 && r > 0 {
                        (c, r)
                    } else {
                        (1, 1)
                    },
                    _ => (1, 1),
                },
            }
        },
    }
}

fn grid_size_chars(stem: &Vec<char>) -> (res: (u32, u32))
    ensures
        res == grid_size(stem@),
{
    let found = rfind_char_exec(stem, '_');
    let i = match found {
        Some(i) => i,
        None => {
            return (1, 1);
        },
    };
    assert(rfind_char(stem@, '_') == Some(i as int));
    proof {
        lemma_rfind_char_in_range(stem@, '_', i as int);
    }
    assert(i < stem.len());
    let grid = slice_chars(stem, i + 1, stem.len());
    assert(grid@ =~= stem@.skip(i + 1));
    let j = match find_char_exec(&grid, 'x') {
        Some(j) => j,
        None => {
            return (1, 1);
        },
    };
    proof {
        lemma_find_char_in_range(grid@, 'x', j as int);
    }
    let columns_text = slice_chars(&grid, 0, j);
    let rows_text = slice_chars(&grid, j + 1, grid.len());
    assert(columns_text@ =~= grid@.take(j as int));
    assert(rows_text@ =~= grid@.skip(j + 1));
    match (parse_u32(&columns_text), parse_u32(&rows_text)) {
        (Some(columns), Some(rows)) => {
            if columns > 0 && rows > 0 {
                (columns, rows)
            } else {
                (1, 1)
            }
        },
        _ => (1, 1),
    }
}

proof fn lemma_rfind_char_in_range(s: Seq<char>, c: char, i: int)
    requires
        rfind_char(s, c) == Some(i),
    ensures
        0 <= i < s.len() && s[i] == c,
    decreases s.len(),
{
    if s.last() != c {
        lemma_rfind_char_in_range(s.drop_last(), c, i);
    }
}

proof fn lemma_find_char_in_range(s: Seq<char>, c: char, i: int)
    requires
        find_char(s, c) == Some(i),
    ensures
        0 <= i < s.len() && s[i] == c,
    decreases s.len(),
{
    if s[0] != c {
        lemma_find_char_in_range(s.drop_first(), c, i - 1);
    }
}

/// The grid of a sprite sheet from its file stem: "smoke_4x8" has 4 columns and 8 rows;
/// a stem without a valid `<columns>x<rows>` suffix is a single cell.
pub fn parse_grid_size(stem: &str) -> (res: (u32, u32))
    ensures
        res == grid_size(stem@),
        res.0 > 0 && res.1 > 0,
{
    let cs = chars_of(stem);
    grid_size_chars(&cs)
}

// ---------------------------------------------------------------------------------------
// File names
// ---------------------------------------------------------------------------------------

/// A file name split at its last dot, as `Path::file_stem` and `Path::extension` see it:
/// the part before the dot (if any) and the part after it (if any). A name that only
/// starts with a dot, and the name "..", have no extension.
pub open spec fn split_at_last_dot(name: Seq<char>) -> (Option<Seq<char>>, Option<Seq<char>>) {
    if name =~= seq!['.', '.'] {
        (Some(name), None)
    } else {
        match rfind_char(name, '.') {
            None => (None, Some(name)),
            Some(i) => if i == 0 {
                (Some(name), None)
            } else {
                (Some(name.take(i)), Some(name.skip(i + 1)))
            },
        }
    }
}

/// The stem of a file name (`Path::file_stem`).
pub open spec fn file_stem(name: Seq<char>) -> Seq<char> {
    match split_at_last_dot(name) {
        (Some(before), _) => before,
        (None, Some(after)) => after,
        (None, None) => Seq::empty(),
    }
}

/// The extension of a file name (`Path::extension`).
pub open spec fn file_extension(name: Seq<char>) -> Option<Seq<char>> {
    match split_at_last_dot(name) {
        (Some(_), Some(after)) => Some(after),
        _ => None,
    }
}

/// Whether a file is a sprite sheet of the bundle: its extension is `png` or `tga`, in
/// any ASCII case.
pub open spec fn is_texture_file(name: Seq<char>) -> bool {
    match file_extension(name) {
        Some(ext) => eq_ignore_ascii_case_spec(ext, "png"@) || eq_ignore_ascii_case_spec(
            ext,
            "tga"@,
        ),
        None => false,
    }
}

fn split_at_last_dot_exec(name: &Vec<char>) -> (res: (Option<Vec<char>>, Option<Vec<char>>))
    ensures
        res.0 matches Some(b) ==> split_at_last_dot(name@).0 == Some(b@),
        res.0 is None ==> split_at_last_dot(name@).0 is None,
        res.1 matches Some(a) ==> split_at_last_dot(name@).1 == Some(a@),
        res.1 is None ==> split_at_last_dot(name@).1 is None,
{
    if name.len() == 2 && name[0] == '.' && name[1] == '.' {
        assert(name@ =~= seq!['.', '.']);
        return (Some(name.clone()), None);
    }
    assert(!(name@ =~= seq!['.', '.']));
    match rfind_char_exec(name, '.') {
        None => (None, Some(name.clone())),
        Some(i) => {
            proof {
                lemma_rfind_char_in_range(name@, '.', i as int);
            }
            if i == 0 {
                (Some(name.clone()), None)
            } else {
                let before = slice_chars(name, 0, i);
                let after = slice_chars(name, i + 1, name.len());
                assert(before@ =~= name@.take(i as int));
                assert(after@ =~= name@.skip(i + 1));
                (Some(before), Some(after))
            }
        },
    }
}

/// The stem of the file name `name`.
fn file_stem_exec(name: &Vec<char>) -> (res: Vec<char>)
    ensures
        res@ == file_stem(name@),
{
    match split_at_last_dot_exec(name) {
        (Some(before), _) => before,
        (None, Some(after)) => after,
        (None, None) => Vec::new(),
    }
}

fn is_texture_file_exec(name: &Vec<char>) -> (res: bool)
    ensures
        res == is_texture_file(name@),
{
    match split_at_last_dot_exec(name) {
        (Some(_), Some(ext)) => {
            let png = chars_of("png");
            let tga = chars_of("tga");
            eq_ignore_ascii_case(&ext, &png) || eq_ignore_ascii_case(&ext, &tga)
        },
        _ => false,
    }
}

/// Whether the file called `file_name` is a sprite sheet (a `.png` or `.tga` file).
pub fn is_texture_file_name(file_name: &str) -> (res: bool)
    ensures
        res == is_texture_file(file_name@),
{
    let cs = chars_of(file_name);
    is_texture_file_exec(&cs)
}

// ---------------------------------------------------------------------------------------
// The catalogue
// ---------------------------------------------------------------------------------------

/// One sprite sheet of the catalogue.
pub struct FlipbookTexture {
    /// The name of the file.
    pub file_name: String,
    /// The name shown to users.
    pub display_name: String,
    /// The path of the file below the texture root.
    pub relative_path: String,
    pub columns: u32,
    pub rows: u32,
}

/// The directory of the sprite sheets below the texture root.
pub open spec fn flipbook_dir() -> Seq<char> {
    "assets/brackeys_vfx_bundle/flipbooks/"@
}

/// The catalogue entry of the file called `name`.
pub open spec fn texture_entry(name: Seq<char>) -> (Seq<char>, Seq<char>, u32, u32) {
    let stem = file_stem(name);
    let grid = grid_size(stem);
    (display_name(stem), flipbook_dir() + name, grid.0, grid.1)
}

/// The fields of an entry, as plain values.
pub open spec fn entry_view(t: FlipbookTexture) -> (Seq<char>, Seq<char>, u32, u32) {
    (t.display_name@, t.relative_path@, t.columns, t.rows)
}

/// Whether `names` is in ascending lexicographic order.
pub open spec fn sorted_names(names: Seq<Seq<char>>) -> bool {
    forall|i: int, j: int| 0 <= i < j < names.len() ==> lex_le(names[i], names[j])
}

/// The names that are sprite sheets, in the order given.
pub open spec fn texture_names(names: Seq<Seq<char>>) -> Seq<Seq<char>> {
    names.filter(|n: Seq<char>| is_texture_file(n))
}

/// The catalogue entry of the file called `file_name`.
pub fn texture_entry_of(file_name: &str) -> (res: FlipbookTexture)
    ensures
        res.file_name@ == file_name@,
        entry_view(res) == texture_entry(file_name@),
{
    let name = chars_of(file_name);
    let stem = file_stem_exec(&name);
    let display = display_name_chars(&stem);
    let (columns, rows) = grid_size_chars(&stem);
    let mut path = String::new();
    push_str(&mut path, "assets/brackeys_vfx_bundle/flipbooks/");
    push_str(&mut path, file_name);
    let mut own_name = String::new();
    push_str(&mut own_name, file_name);
    FlipbookTexture { file_name: own_name, display_name: display, relative_path: path, columns, rows }
}

/// Inserts `x` into the sorted `v`, keeping it sorted.
fn insert_sorted(v: &mut Vec<Vec<char>>, x: Vec<char>)
    requires
        sorted_names(old(v)@.map_values(|c: Vec<char>| c@)),
    ensures
        sorted_names(final(v)@.map_values(|c: Vec<char>| c@)),
        final(v)@.map_values(|c: Vec<char>| c@).to_multiset() == old(v)@.map_values(
            |c: Vec<char>| c@,
        ).to_multiset().insert(x@),
{
    let ghost old_names = v@.map_values(|c: Vec<char>| c@);
    let mut pos: usize = 0;
    while pos < v.len() && lex_le_exec(&v[pos], &x)
        invariant
            pos <= v.len(),
            v@.map_values(|c: Vec<char>| c@) == old_names,
            forall|k: int| 0 <= k < pos ==> lex_le(#[trigger] old_names[k], x@),
        decreases v.len() - pos,
    {
        pos = pos + 1;
    }
    let ghost xv = x@;
    proof {
        if pos < v.len() {
            lemma_lex_le_total(old_names[pos as int], xv);
        }
    }
    v.insert(pos, x);
    proof {
        let new_names = v@.map_values(|c: Vec<char>| c@);
        assert(new_names =~= old_names.insert(pos as int, xv));
        assert forall|i: int, j: int| 0 <= i < j < new_names.len() implies lex_le(
            new_names[i],
            new_names[j],
        ) by {
            if j < pos {
            } else if i < pos && j == pos {
            } else if i < pos {
                assert(new_names[j] == old_names[j - 1]);
            } else if i == pos {
                assert(new_names[j] == old_names[j - 1]);
                if j - 1 > pos {
                    assert(lex_le(old_names[pos as int], old_names[j - 1]));
                    lemma_lex_le_transitive(xv, old_names[pos as int], old_names[j - 1]);
                }
            } else {
                assert(new_names[i] == old_names[i - 1]);
                assert(new_names[j] == old_names[j - 1]);
            }
        }
        lemma_insert_multiset(old_names, pos as int, xv);
    }
}

proof fn lemma_insert_multiset(s: Seq<Seq<char>>, pos: int, x: Seq<char>)
    requires
        0 <= pos <= s.len(),
    ensures
        s.insert(pos, x).to_multiset() == s.to_multiset().insert(x),
{
    let a = s.take(pos);
    let b = s.skip(pos);
    assert(s =~= a + b);
    assert(s.insert(pos, x) =~= a.push(x) + b);
    vstd::seq_lib::lemma_multiset_commutative(a.push(x), b);
    vstd::seq_lib::lemma_multiset_commutative(a, b);
    broadcast use vstd::seq_lib::group_to_multiset_ensures;

    assert(a.push(x).to_multiset() =~= a.to_multiset().insert(x));
    assert(a.to_multiset().insert(x).add(b.to_multiset()) =~= a.to_multiset().add(
        b.to_multiset(),
    ).insert(x));
}

/// The catalogue of the sprite sheets among the files called `file_names`: the `.png` and
/// `.tga` files, ordered by name, each with its display name, path and grid.
pub fn flipbook_textures(file_names: &Vec<String>) -> (res: Vec<FlipbookTexture>)
    ensures
        exists|names: Seq<Seq<char>>|
            {
                &&& sorted_names(names)
                &&& names.to_multiset() == texture_names(
                    file_names@.map_values(|s: String| s@),
                ).to_multiset()
                &&& res@.len() == names.len()
                &&& forall|i: int|
                    0 <= i < names.len() ==> entry_view(#[trigger] res@[i]) == texture_entry(
                        names[i],
                    ) && res@[i].file_name@ == names[i]
            },
{
    let ghost all = file_names@.map_values(|s: String| s@);
    let mut kept: Vec<Vec<char>> = Vec::new();
    let mut i: usize = 0;
    assert(all.take(0) =~= Seq::<Seq<char>>::empty());
    assert(kept@.map_values(|c: Vec<char>| c@) =~= Seq::<Seq<char>>::empty());
    assert(texture_names(all.take(0)) =~= Seq::<Seq<char>>::empty()) by {
        reveal_with_fuel(Seq::filter, 1);
    }
    while i < file_names.len()
        invariant
            i <= file_names.len(),
            all == file_names@.map_values(|s: String| s@),
            sorted_names(kept@.map_values(|c: Vec<char>| c@)),
            kept@.map_values(|c: Vec<char>| c@).to_multiset() == texture_names(
                all.take(i as int),
            ).to_multiset(),
        decreases file_names.len() - i,
    {
        let name = chars_of(file_names[i].as_str());
        proof {
            let t = all.take(i + 1);
            assert(t.drop_last() =~= all.take(i as int));
            assert(t.last() == name@);
            all.take(i as int).lemma_filter_push(name@, |n: Seq<char>| is_texture_file(n));
            assert(t =~= all.take(i as int).push(name@));
        }
        let ghost nv = name@;
        if is_texture_file_exec(&name) {
            insert_sorted(&mut kept, name);
        }
        proof {
            broadcast use vstd::seq_lib::group_to_multiset_ensures;

            let prev = texture_names(all.take(i as int));
            if is_texture_file(nv) {
                assert(texture_names(all.take(i + 1)) =~= prev.push(nv));
                assert(prev.push(nv).to_multiset() =~= prev.to_multiset().insert(nv));
            } else {
                assert(texture_names(all.take(i + 1)) =~= prev);
            }
        }
        i = i + 1;
    }
    assert(all.take(file_names.len() as int) =~= all);
    let mut res: Vec<FlipbookTexture> = Vec::new();
    let mut k: usize = 0;
    while k < kept.len()
        invariant
            k <= kept.len(),
            res@.len() == k,
            forall|m: int|
                0 <= m < k ==> entry_view(#[trigger] res@[m]) == texture_entry(kept@[m]@)
                    && res@[m].file_name@ == kept@[m]@,
        decreases kept.len() - k,
    {
        let name = &kept[k];
        let stem = file_stem_exec(name);
        let display = display_name_chars(&stem);
        let (columns, rows) = grid_size_chars(&stem);
        let mut path = String::new();
        push_str(&mut path, "assets/brackeys_vfx_bundle/flipbooks/");
        push_chars(&mut path, name);
        let own_name = string_of(name);
        res.push(
            FlipbookTexture { file_name: own_name, display_name: display, relative_path: path, columns, rows },
        );
        k = k + 1;
    }
    let ghost names = kept@.map_values(|c: Vec<char>| c@);
    assert(sorted_names(names) && res@.len() == names.len());
    assert(forall|m: int| 0 <= m < names.len() ==> names[m] == kept@[m]@);
    res
}

// ---------------------------------------------------------------------------------------
// Generated sources
// ---------------------------------------------------------------------------------------

/// The line of the texture list for one entry.
pub open spec fn list_line(t: (Seq<char>, Seq<char>, u32, u32)) -> Seq<char> {
    "    (\""@ + t.0 + "\", \"embedded://bevy_sprinkles/textures/"@ + t.1 + "\", "@ + decimal(
        t.2 as nat,
    ) + ", "@ + decimal(t.3 as nat) + "),\n"@
}

/// The lines of the texture list for `ts`, one after the other.
pub open spec fn list_lines(ts: Seq<(Seq<char>, Seq<char>, u32, u32)>) -> Seq<char>
    decreases ts.len(),
{
    if ts.len() == 0 {
        Seq::empty()
    } else {
        list_lines(ts.drop_last()) + list_line(ts.last())
    }
}

/// The heading of the texture list.
pub open spec fn list_header() -> Seq<char> {
    "/// Flipbook sprite-sheet textures from the Brackeys VFX Bundle, as `(display_name, embedded_path, columns, rows)` tuples.\npub const FLIPBOOK_TEXTURES: &[(&str, &str, u32, u32)] = &[\n"@
}

/// The source of the texture list: a constant slice of
/// `(display_name, embedded_path, columns, rows)` tuples.
pub open spec fn list_code(ts: Seq<(Seq<char>, Seq<char>, u32, u32)>) -> Seq<char> {
    list_header() + list_lines(ts) + "];\n"@
}

/// The statement that embeds one entry's file.
pub open spec fn embed_statement(t: (Seq<char>, Seq<char>, u32, u32)) -> Seq<char> {
    let source_path = "src/textures/"@ + t.1;
    let embedded_path = "bevy_sprinkles/textures/"@ + t.1;
    "    embedded.insert_asset(\n        std::path::PathBuf::from(concat!(env!(\"CARGO_MANIFEST_DIR\"), \"/"@
        + source_path + "\")),\n        std::path::Path::new(\""@ + embedded_path
        + "\"),\n        include_bytes!(concat!(env!(\"CARGO_MANIFEST_DIR\"), \"/"@ + source_path
        + "\")),\n    );\n"@
}

/// The embedding statements for `ts`, one after the other.
pub open spec fn embed_statements(ts: Seq<(Seq<char>, Seq<char>, u32, u32)>) -> Seq<char>
    decreases ts.len(),
{
    if ts.len() == 0 {
        Seq::empty()
    } else {
        embed_statements(ts.drop_last()) + embed_statement(ts.last())
    }
}

/// The opening of the embedding block.
pub open spec fn embeds_header() -> Seq<char> {
    "{\n    let embedded = app.world_mut().resource_mut::<bevy::asset::io::embedded::EmbeddedAssetRegistry>();\n"@
}

/// The source of the block that registers every entry's file as an embedded asset.
pub open spec fn embeds_code(ts: Seq<(Seq<char>, Seq<char>, u32, u32)>) -> Seq<char> {
    embeds_header() + embed_statements(ts) + "}\n"@
}

/// The entries of `ts` as plain values.
pub open spec fn entries_view(ts: Seq<FlipbookTexture>) -> Seq<(Seq<char>, Seq<char>, u32, u32)> {
    ts.map_values(|t: FlipbookTexture| entry_view(t))
}

/// Appends the line of the texture list for `t` to `out`.
fn push_list_line(out: &mut String, t: &FlipbookTexture)
    ensures
        final(out)@ == old(out)@ + list_line(entry_view(*t)),
{
    let ghost before = out@;
    push_str(out, "    (\"");
    push_str(out, t.display_name.as_str());
    push_str(out, "\", \"embedded://bevy_sprinkles/textures/");
    push_str(out, t.relative_path.as_str());
    push_str(out, "\", ");
    push_decimal(out, t.columns);
    push_str(out, ", ");
    push_decimal(out, t.rows);
    push_str(out, "),\n");
    assert(out@ =~= before + list_line(entry_view(*t)));
}

/// Appends the statement that embeds the file of `t` to `out`.
fn push_embed_statement(out: &mut String, t: &FlipbookTexture)
    ensures
        final(out)@ == old(out)@ + embed_statement(entry_view(*t)),
{
    let ghost before = out@;
    push_str(out, "    embedded.insert_asset(\n        std::path::PathBuf::from(concat!(env!(\"CARGO_MANIFEST_DIR\"), \"/");
    push_str(out, "src/textures/");
    push_str(out, t.relative_path.as_str());
    push_str(out, "\")),\n        std::path::Path::new(\"");
    push_str(out, "bevy_sprinkles/textures/");
    push_str(out, t.relative_path.as_str());
    push_str(out, "\"),\n        include_bytes!(concat!(env!(\"CARGO_MANIFEST_DIR\"), \"/");
    push_str(out, "src/textures/");
    push_str(out, t.relative_path.as_str());
    push_str(out, "\")),\n    );\n");
    assert(out@ =~= before + embed_statement(entry_view(*t)));
}

/// The source of the texture list for the catalogue `entries`.
pub fn flipbook_list_code(entries: &Vec<FlipbookTexture>) -> (res: String)
    ensures
        res@ == list_code(entries_view(entries@)),
{
    let ghost ts = entries_view(entries@);
    let mut out = String::new();
    push_str(&mut out, "/// Flipbook sprite-sheet textures from the Brackeys VFX Bundle, as `(display_name, embedded_path, columns, rows)` tuples.\npub const FLIPBOOK_TEXTURES: &[(&str, &str, u32, u32)] = &[\n");
    let mut i: usize = 0;
    assert(ts.take(0) =~= Seq::<(Seq<char>, Seq<char>, u32, u32)>::empty());
    assert(out@ =~= list_header() + list_lines(ts.take(0)));
    while i < entries.len()
        invariant
            i <= entries.len(),
            ts == entries_view(entries@),
            out@ == list_header() + list_lines(ts.take(i as int)),
        decreases entries.len() - i,
    {
        let t = &entries[i];
        push_list_line(&mut out, t);
        proof {
            let tk = ts.take(i + 1);
            assert(tk.drop_last() =~= ts.take(i as int));
            assert(tk.last() == entry_view(entries@[i as int]));
        }
        i = i + 1;
    }
    assert(ts.take(entries.len() as int) =~= ts);
    push_str(&mut out, "];\n");
    assert(out@ =~= list_code(ts));
    out
}

/// The source of the block that embeds the file of every entry of `entries`.
pub fn flipbook_embeds_code(entries: &Vec<FlipbookTexture>) -> (res: String)
    ensures
        res@ == embeds_code(entries_view(entries@)),
{
    let ghost ts = entries_view(entries@);
    let mut out = String::new();
    push_str(&mut out, "{\n    let embedded = app.world_mut().resource_mut::<bevy::asset::io::embedded::EmbeddedAssetRegistry>();\n");
    let mut i: usize = 0;
    assert(ts.take(0) =~= Seq::<(Seq<char>, Seq<char>, u32, u32)>::empty());
    assert(out@ =~= embeds_header() + embed_statements(ts.take(0)));
    while i < entries.len()
        invariant
            i <= entries.len(),
            ts == entries_view(entries@),
            out@ == embeds_header() + embed_statements(ts.take(i as int)),
        decreases entries.len() - i,
    {
        let t = &entries[i];
        push_embed_statement(&mut out, t);
        proof {
            let tk = ts.take(i + 1);
            assert(tk.drop_last() =~= ts.take(i as int));
            assert(tk.last() == entry_view(entries@[i as int]));
        }
        i = i + 1;
    }
    assert(ts.take(entries.len() as int) =~= ts);
    push_str(&mut out, "}\n");
    assert(out@ =~= embeds_code(ts));
    out
}

// ---------------------------------------------------------------------------------------
// Laws
// ---------------------------------------------------------------------------------------

proof fn lemma_rfind_char_append_without(a: Seq<char>, b: Seq<char>, c: char)
    requires
        forall|i: int| 0 <= i < b.len() ==> b[i] != c,
    ensures
        rfind_char(a + b, c) == rfind_char(a, c),
    decreases b.len(),
{
    if b.len() == 0 {
        assert(a + b =~= a);
    } else {
        assert((a + b).drop_last() =~= a + b.drop_last());
        assert((a + b).last() == b.last());
        lemma_rfind_char_append_without(a, b.drop_last(), c);
    }
}

proof fn lemma_find_char_prepend_without(a: Seq<char>, b: Seq<char>, c: char)
    requires
        forall|i: int| 0 <= i < a.len() ==> a[i] != c,
    ensures
        find_char(a + b, c) == match find_char(b, c) {
            Some(j) => Some(a.len() + j),
            None => None::<int>,
        },
    decreases a.len(),
{
    if a.len() == 0 {
        assert(a + b =~= b);
        match find_char(b, c) {
            Some(j) => {},
            None => {},
        }
    } else {
        assert((a + b).drop_first() =~= a.drop_first() + b);
        assert((a + b)[0] == a[0]);
        lemma_find_char_prepend_without(a.drop_first(), b, c);
    }
}

proof fn lemma_digits_without(d: Seq<char>, c: char)
    requires
        all_digits(d),
        !is_digit(c),
    ensures
        forall|i: int| 0 <= i < d.len() ==> d[i] != c,
{
    assert forall|i: int| 0 <= i < d.len() implies d[i] != c by {
        assert(is_digit(d[i]));
    }
}

/// The part `<columns>x<rows>` of a stem splits into its two numbers.
proof fn lemma_grid_part(dc: Seq<char>, dr: Seq<char>)
    requires
        all_digits(dc),
    ensures
        find_char(dc + seq!['x'] + dr, 'x') == Some(dc.len() as int),
        (dc + seq!['x'] + dr).take(dc.len() as int) == dc,
        (dc + seq!['x'] + dr).skip(dc.len() as int + 1) == dr,
{
    let grid = dc + seq!['x'] + dr;
    lemma_digits_without(dc, 'x');
    assert(grid =~= dc + (seq!['x'] + dr));
    lemma_find_char_prepend_without(dc, seq!['x'] + dr, 'x');
    assert((seq!['x'] + dr)[0] == 'x');
    assert(find_char(seq!['x'] + dr, 'x') == Some(0int));
    assert(grid.take(dc.len() as int) =~= dc);
    assert(grid.skip(dc.len() as int + 1) =~= dr);
}

/// A stem ending in `_` and a part without `_` splits at that `_`.
proof fn lemma_stem_split(prefix: Seq<char>, grid: Seq<char>)
    requires
        forall|i: int| 0 <= i < grid.len() ==> grid[i] != '_',
    ensures
        rfind_char(prefix.push('_') + grid, '_') == Some(prefix.len() as int),
        (prefix.push('_') + grid).skip(prefix.len() as int + 1) == grid,
{
    lemma_rfind_char_append_without(prefix.push('_'), grid, '_');
    assert(rfind_char(prefix.push('_'), '_') == Some(prefix.len() as int));
    assert((prefix.push('_') + grid).skip(prefix.len() as int + 1) =~= grid);
}

/// A stem that ends in `_<columns>x<rows>`, written in decimal, has that grid: the grid
/// parsed from a file name is the one written into it.
pub proof fn lemma_grid_size_roundtrip(prefix: Seq<char>, columns: u32, rows: u32)
    requires
        columns > 0,
        rows > 0,
    ensures
        grid_size(prefix + seq!['_'] + decimal(columns as nat) + seq!['x'] + decimal(
            rows as nat,
        )) == (columns, rows),
{
    let dc = decimal(columns as nat);
    let dr = decimal(rows as nat);
    lemma_decimal_digits(columns as nat);
    lemma_decimal_digits(rows as nat);
    lemma_parse_decimal(columns);
    lemma_parse_decimal(rows);
    let grid = dc + seq!['x'] + dr;
    let stem = prefix + seq!['_'] + dc + seq!['x'] + dr;
    assert(stem =~= prefix.push('_') + grid);
    lemma_digits_without(dc, '_');
    lemma_digits_without(dr, '_');
    assert forall|i: int| 0 <= i < grid.len() implies grid[i] != '_' by {
        if i < dc.len() {
            assert(grid[i] == dc[i]);
        } else if i > dc.len() {
            assert(grid[i] == dr[i - dc.len() - 1]);
        }
    }
    lemma_stem_split(prefix, grid);
    lemma_grid_part(dc, dr);
}

/// A stem without `_` has no grid part: it is a single cell.
pub proof fn lemma_grid_size_single_cell(stem: Seq<char>)
    requires
        forall|i: int| 0 <= i < stem.len() ==> stem[i] != '_',
    ensures
        grid_size(stem) == (1u32, 1u32),
{
    lemma_rfind_char_append_without(Seq::<char>::empty(), stem, '_');
    assert(Seq::<char>::empty() + stem =~= stem);
}

/// A file name `base.ext`, with a base that is not empty and an extension that is not
/// empty and has no dot, has the stem `base` and the extension `ext`, and is a sprite sheet
/// exactly when `ext` is `png` or `tga` in any ASCII case.
pub proof fn lemma_texture_file_law(base: Seq<char>, ext: Seq<char>)
    requires
        base.len() > 0,
        ext.len() > 0,
        forall|i: int| 0 <= i < ext.len() ==> ext[i] != '.',
    ensures
        file_stem(base + seq!['.'] + ext) == base,
        file_extension(base + seq!['.'] + ext) == Some(ext),
        is_texture_file(base + seq!['.'] + ext) == (eq_ignore_ascii_case_spec(ext, "png"@)
            || eq_ignore_ascii_case_spec(ext, "tga"@)),
{
    let name = base + seq!['.'] + ext;
    assert(name =~= base.push('.') + ext);
    lemma_rfind_char_append_without(base.push('.'), ext, '.');
    assert(rfind_char(base.push('.'), '.') == Some(base.len() as int));
    assert(name.len() > 2);
    assert(!(name =~= seq!['.', '.']));
    assert(name.take(base.len() as int) =~= base);
    assert(name.skip(base.len() as int + 1) =~= ext);
}

/// A file name without a dot has no extension, so it is no sprite sheet, and it is its
/// own stem.
pub proof fn lemma_no_extension_law(name: Seq<char>)
    requires
        forall|i: int| 0 <= i < name.len() ==> name[i] != '.',
    ensures
        file_extension(name) is None,
        !is_texture_file(name),
        file_stem(name) == name,
{
    lemma_rfind_char_append_without(Seq::<char>::empty(), name, '.');
    assert(Seq::<char>::empty() + name =~= name);
    if name.len() == 2 {
        assert(name[0] != '.');
        assert(!(name =~= seq!['.', '.']));
    }
}

/// Names sorted by `lex_le` are determined by the names they hold: two sorted sequences
/// of the same names are equal. So the catalogue of `flipbook_textures` does not depend on
/// the order in which the directory lists its files.
pub proof fn lemma_sorted_names_unique(a: Seq<Seq<char>>, b: Seq<Seq<char>>)
    requires
        sorted_names(a),
        sorted_names(b),
        a.to_multiset() == b.to_multiset(),
    ensures
        a == b,
    decreases a.len(),
{
    broadcast use vstd::seq_lib::group_to_multiset_ensures;

    assert(a.len() == a.to_multiset().len());
    assert(b.len() == b.to_multiset().len());
    if a.len() == 0 {
        assert(a =~= b);
    } else {
        assert(a.contains(a[0]));
        assert(a.to_multiset().count(a[0]) > 0);
        assert(b.contains(a[0]));
        let k = choose|k: int| 0 <= k < b.len() && b[k] == a[0];
        assert(b.contains(b[0]));
        assert(b.to_multiset().count(b[0]) > 0);
        assert(a.contains(b[0]));
        let m = choose|m: int| 0 <= m < a.len() && a[m] == b[0];
        if k > 0 {
            assert(lex_le(b[0], b[k]));
        } else {
            assert(b[0] == a[0]);
        }
        if m > 0 {
            assert(lex_le(a[0], a[m]));
        }
        if a[0] != b[0] {
            lemma_lex_le_antisymmetric(a[0], b[0]);
        }
        assert(a.remove(0) =~= a.drop_first());
        assert(b.remove(0) =~= b.drop_first());
        assert(a.drop_first().to_multiset() =~= a.to_multiset().remove(a[0]));
        assert(b.drop_first().to_multiset() =~= b.to_multiset().remove(b[0]));
        assert(sorted_names(a.drop_first())) by {
            assert forall|i: int, j: int| 0 <= i < j < a.drop_first().len() implies lex_le(
                a.drop_first()[i],
                a.drop_first()[j],
            ) by {
                assert(a.drop_first()[i] == a[i + 1]);
                assert(a.drop_first()[j] == a[j + 1]);
            }
        }
        assert(sorted_names(b.drop_first())) by {
            assert forall|i: int, j: int| 0 <= i < j < b.drop_first().len() implies lex_le(
                b.drop_first()[i],
                b.drop_first()[j],
            ) by {
                assert(b.drop_first()[i] == b[i + 1]);
                assert(b.drop_first()[j] == b[j + 1]);
            }
        }
        lemma_sorted_names_unique(a.drop_first(), b.drop_first());
        assert(a =~= seq![a[0]] + a.drop_first());
        assert(b =~= seq![b[0]] + b.drop_first());
    }
}

} // verus!
