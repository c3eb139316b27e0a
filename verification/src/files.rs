//! Output filenames and resume discovery.
//!
//! A segment's output file is named `{dataset}_from_{start}_to_{end}.{ext}`.
//! Discovery walks a directory listing and accepts exactly the names that
//! split on `_` and `.` into six tokens matching that pattern with numeric
//! bounds; anything else is ignored. Writing and discovery round-trip, so
//! a completed run is fully recognized by the next one.

use crate::numbers::{is_u64_string, lemma_dec_roundtrip, spec_dec, u64_string_val};
use crate::numbers::{parse_u64, u64_to_dec};
use crate::text::str_eq;
use vstd::prelude::*;

verus! {

/// The characters a filename is split on.
pub open spec fn is_sep(c: char) -> bool {
    c == '_' || c == '.'
}

pub open spec fn sep_free(s: Seq<char>) -> bool {
    forall|i: int| 0 <= i < s.len() ==> !is_sep(#[trigger] s[i])
}

/// The tokens of `s`, split at every separator: one token per maximal
/// (possibly empty) separator-free run.
pub open spec fn spec_tokens(s: Seq<char>) -> Seq<Seq<char>>
    decreases s.len(),
{
    if s.len() == 0 {
        seq![Seq::<char>::empty()]
    } else if is_sep(s[0]) {
        seq![Seq::<char>::empty()] + spec_tokens(s.skip(1))
    } else {
        let rest = spec_tokens(s.skip(1));
        seq![seq![s[0]] + rest[0]] + rest.skip(1)
    }
}

proof fn lemma_tokens_nonempty(s: Seq<char>)
    ensures
        spec_tokens(s).len() >= 1,
    decreases s.len(),
{
    if s.len() > 0 {
        lemma_tokens_nonempty(s.skip(1));
    }
}

/// The filename written for one completed segment.
pub open spec fn spec_file_name(
    dataset_name: Seq<char>,
    start: u64,
    end: u64,
    export_type: Seq<char>,
) -> Seq<char> {
    dataset_name + "_from_"@ + spec_dec(start as nat) + "_to_"@ + spec_dec(end as nat)
        + seq!['.'] + export_type
}

/// The segment a filename stands for, if the name has exactly the shape
/// `{dataset_name}_from_{start}_to_{end}.{export_type}` with numeric
/// bounds; `None` for every other name.
pub open spec fn spec_parse_file_name(
    s: Seq<char>,
    dataset_name: Seq<char>,
    export_type: Seq<char>,
) -> Option<(u64, u64)> {
    let t = spec_tokens(s);
    if t.len() == 6 && t[0] == dataset_name && t[1] == "from"@ && t[3] == "to"@ && t[5]
        == export_type && is_u64_string(t[2]) && is_u64_string(t[4]) {
        Some((u64_string_val(t[2]) as u64, u64_string_val(t[4]) as u64))
    } else {
        None
    }
}

/// Builds the output filename for one segment.
pub fn make_file_name(dataset_name: &str, start: u64, end: u64, export_type: &str) -> (r: String)
    ensures
        r@ == spec_file_name(dataset_name@, start, end, export_type@),
{
    let mut r = String::from_str(dataset_name);
    r.append("_from_");
    let s = u64_to_dec(start);
    r.append(s.as_str());
    r.append("_to_");
    let e = u64_to_dec(end);
    r.append(e.as_str());
    r.append(".");
    r.append(export_type);
    proof {
        reveal_strlit(".");
        assert(r@ =~= spec_file_name(dataset_name@, start, end, export_type@));
    }
    r
}

/// The tokens of `s` from position `from` on, computed as the split
/// definition reads: a separator opens a new empty token, any other
/// character extends the current one.
fn tokens_from(s: &str, from: usize) -> (r: Vec<String>)
    requires
        from <= s@.len(),
    ensures
        r.deep_view() == spec_tokens(s@.skip(from as int)),
        r@.len() >= 1,
    decreases s@.len() - from,
{
    if from == s.unicode_len() {
        let mut r: Vec<String> = Vec::new();
        r.push(String::new());
        proof {
            assert(s@.skip(from as int) =~= Seq::<char>::empty());
            assert(r.deep_view() =~= spec_tokens(s@.skip(from as int)));
        }
        r
    } else {
        let c = s.get_char(from);
        let mut r = tokens_from(s, from + 1);
        proof {
            assert(s@.skip(from as int).skip(1) =~= s@.skip(from as int + 1));
            assert(s@.skip(from as int)[0] == s@[from as int]);
        }
        if c == '_' || c == '.' {
            r.insert(0, String::new());
            proof {
                assert(r.deep_view() =~= spec_tokens(s@.skip(from as int)));
            }
        } else {
            let first = r.remove(0);
            let head = s.substring_char(from, from + 1);
            let combined = String::from_str(head).concat(first.as_str());
            r.insert(0, combined);
            proof {
                let rest = spec_tokens(s@.skip(from as int + 1));
                assert(head@ =~= seq![s@[from as int]]);
                assert(combined@ =~= seq![s@[from as int]] + rest[0]);
                assert(r.deep_view() =~= spec_tokens(s@.skip(from as int)));
            }
        }
        r
    }
}

/// Reads one directory entry's name back into a completed segment:
/// `Some((start, end))` exactly for names of the written shape for this
/// dataset and export type, `None` for every other name.
pub fn parse_file_name(name: &str, dataset_name: &str, export_type: &str) -> (r: Option<
    (u64, u64),
>)
    ensures
        r == spec_parse_file_name(name@, dataset_name@, export_type@),
{
    let toks = tokens_from(name, 0);
    proof {
        assert(name@.skip(0) =~= name@);
    }
    if toks.len() != 6 {
        return None;
    }
    if !str_eq(toks[0].as_str(), dataset_name) {
        return None;
    }
    if !str_eq(toks[1].as_str(), "from") {
        return None;
    }
    if !str_eq(toks[3].as_str(), "to") {
        return None;
    }
    if !str_eq(toks[5].as_str(), export_type) {
        return None;
    }
    let a = match parse_u64(toks[2].as_str()) {
        Some(v) => v,
        None => {
            return None;
        },
    };
    let b = match parse_u64(toks[4].as_str()) {
        Some(v) => v,
        None => {
            return None;
        },
    };
    Some((a, b))
}

/// Prepending a separator-free run turns into one leading token glued to
/// whatever the rest's first token was.
proof fn lemma_tokens_prepend_sep_free(a: Seq<char>, rest: Seq<char>)
    requires
        sep_free(a),
    ensures
        spec_tokens(a + rest) == seq![a + spec_tokens(rest)[0]] + spec_tokens(rest).skip(1),
    decreases a.len(),
{
    lemma_tokens_nonempty(rest);
    if a.len() == 0 {
        assert(a + rest =~= rest);
        assert(a + spec_tokens(rest)[0] =~= spec_tokens(rest)[0]);
        assert(seq![spec_tokens(rest)[0]] + spec_tokens(rest).skip(1) =~= spec_tokens(rest));
    } else {
        let tail = a.skip(1);
        assert(sep_free(tail)) by {
            assert(forall|i: int| 0 <= i < tail.len() ==> tail[i] == a[i + 1]);
        }
        lemma_tokens_prepend_sep_free(tail, rest);
        assert((a + rest).skip(1) =~= tail + rest);
        assert(!is_sep((a + rest)[0]));
        let sub = spec_tokens(tail + rest);
        assert(spec_tokens(a + rest) == seq![seq![a[0]] + sub[0]] + sub.skip(1));
        assert(seq![a[0]] + (tail + spec_tokens(rest)[0]) =~= a + spec_tokens(rest)[0]);
        assert(sub.skip(1) =~= spec_tokens(rest).skip(1));
        assert(spec_tokens(a + rest) =~= seq![a + spec_tokens(rest)[0]] + spec_tokens(
            rest,
        ).skip(1));
    }
}

/// A leading separator contributes one empty token.
proof fn lemma_tokens_sep_head(c: char, rest: Seq<char>)
    requires
        is_sep(c),
    ensures
        spec_tokens(seq![c] + rest) == seq![Seq::<char>::empty()] + spec_tokens(rest),
{
    assert((seq![c] + rest).skip(1) =~= rest);
    assert((seq![c] + rest)[0] == c);
}

/// A separator-free run followed by a separator is one whole token.
proof fn lemma_tokens_run(a: Seq<char>, c: char, rest: Seq<char>)
    requires
        sep_free(a),
        is_sep(c),
    ensures
        spec_tokens(a + (seq![c] + rest)) == seq![a] + spec_tokens(rest),
{
    lemma_tokens_prepend_sep_free(a, seq![c] + rest);
    lemma_tokens_sep_head(c, rest);
    lemma_tokens_nonempty(rest);
    assert(a + spec_tokens(seq![c] + rest)[0] =~= a);
    assert(spec_tokens(seq![c] + rest).skip(1) =~= spec_tokens(rest));
}

/// Discovery reads back exactly what export wrote: for separator-free
/// dataset and export-type names, parsing the written filename yields the
/// written segment. Together with the grid rerun law, a completed run's
/// directory makes the next identical run fetch nothing.
pub proof fn lemma_file_name_roundtrip(
    dataset_name: Seq<char>,
    start: u64,
    end: u64,
    export_type: Seq<char>,
)
    requires
        sep_free(dataset_name),
        sep_free(export_type),
    ensures
        spec_parse_file_name(
            spec_file_name(dataset_name, start, end, export_type),
            dataset_name,
            export_type,
        ) == Some((start, end)),
{
    reveal_strlit("_from_");
    reveal_strlit("_to_");
    reveal_strlit("from");
    reveal_strlit("to");
    let ds = spec_dec(start as nat);
    let de = spec_dec(end as nat);
    lemma_dec_roundtrip(start as nat);
    lemma_dec_roundtrip(end as nat);
    assert(sep_free(ds)) by {
        assert(forall|i: int|
            0 <= i < ds.len() ==> crate::numbers::is_digit(#[trigger] ds[i]) && !is_sep(ds[i]));
    }
    assert(sep_free(de)) by {
        assert(forall|i: int|
            0 <= i < de.len() ==> crate::numbers::is_digit(#[trigger] de[i]) && !is_sep(de[i]));
    }
    assert(sep_free("from"@));
    assert(sep_free("to"@));
    let full = spec_file_name(dataset_name, start, end, export_type);
    let r5 = export_type;
    let r4 = de + seq!['.'] + r5;
    let r3 = "to"@ + seq!['_'] + r4;
    let r2 = ds + seq!['_'] + r3;
    let r1 = "from"@ + seq!['_'] + r2;
    assert(full =~= dataset_name + (seq!['_'] + r1));
    lemma_tokens_run(dataset_name, '_', r1);
    assert(r1 =~= "from"@ + (seq!['_'] + r2));
    lemma_tokens_run("from"@, '_', r2);
    assert(r2 =~= ds + (seq!['_'] + r3));
    lemma_tokens_run(ds, '_', r3);
    assert(r3 =~= "to"@ + (seq!['_'] + r4));
    lemma_tokens_run("to"@, '_', r4);
    assert(r4 =~= de + (seq!['.'] + r5));
    lemma_tokens_run(de, '.', r5);
    lemma_tokens_prepend_sep_free(r5, Seq::<char>::empty());
    assert(r5 + Seq::<char>::empty() =~= r5);
    assert(spec_tokens(r5) =~= seq![r5]);
    assert(spec_tokens(full) =~= seq![dataset_name, "from"@, ds, "to"@, de, export_type]);
}

} // verus!
