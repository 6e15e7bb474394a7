//! Prompt composition: placeholder rendering, fragment path layout,
//! parameter merging, and the final prompt around the user's input.
//!
//! The caller reads the recipe and fragment files (through the sandbox
//! resolver) and parses their markup; the text work is done here, on the
//! bytes of the texts.

use vstd::prelude::*;

use crate::json::{fields_model, has_key, lookup, JsonModel, JsonValue};
use vstd::utf8::encode_utf8;

verus! {

broadcast use vstd::std_specs::vec::group_vec_axioms, vstd::seq::group_seq_axioms;

/// `s` with every occurrence of `from` replaced by `to`, scanning left to
/// right without overlap; an empty pattern replaces nothing.
pub open spec fn replace_all(s: Seq<u8>, from: Seq<u8>, to: Seq<u8>) -> Seq<u8>
    decreases s.len(),
{
    if from.len() == 0 || s.len() < from.len() {
        s
    } else if s.take(from.len() as int) == from {
        to + replace_all(s.skip(from.len() as int), from, to)
    } else {
        seq![s[0]] + replace_all(s.drop_first(), from, to)
    }
}

/// Replace every occurrence of `from` in `s` by `to`.
#[verifier::loop_isolation(false)]
pub fn replace_bytes(s: &[u8], from: &[u8], to: &[u8]) -> (r: Vec<u8>)
    ensures
        r@ == replace_all(s@, from@, to@),
{
    let n = s.len();
    let flen = from.len();
    if flen == 0 {
        return vstd::slice::slice_to_vec(s);
    }
    let mut out: Vec<u8> = Vec::new();
    let mut i: usize = 0;
    proof {
        assert(s@.skip(0) =~= s@);
        assert(Seq::<u8>::empty() + replace_all(s@, from@, to@) =~= replace_all(s@, from@, to@));
    }
    while i < n
        invariant
            i <= n,
            flen == from@.len() > 0,
            replace_all(s@, from@, to@) == out@ + replace_all(s@.skip(i as int), from@, to@),
        decreases n - i,
    {
        let matched = if flen <= n - i {
            crate::text::bytes_eq(&s[i..i + flen], from)
        } else {
            false
        };
        if matched {
            proof {
                assert(s@.subrange(i as int, i as int + flen) =~= s@.skip(i as int).take(
                    flen as int,
                ));
                assert(s@.skip(i as int).skip(flen as int) =~= s@.skip(i as int + flen));
            }
            crate::text::append_bytes(&mut out, to);
            i = i + flen;
        } else {
            proof {
                if flen <= n - i {
                    assert(s@.subrange(i as int, i as int + flen) =~= s@.skip(i as int).take(
                        flen as int,
                    ));
                }
                assert(s@.skip(i as int)[0] == s@[i as int]);
                assert(s@.skip(i as int).drop_first() =~= s@.skip(i as int + 1));
            }
            out.push(s[i]);
            i = i + 1;
        }
    }
    proof {
        assert(s@.skip(n as int) =~= Seq::<u8>::empty());
        assert(out@ + Seq::<u8>::empty() =~= out@);
    }
    out
}

/// The placeholder pattern for a parameter name: the name in double
/// braces.
pub open spec fn key_pattern(k: Seq<u8>) -> Seq<u8> {
    encode_utf8("{{"@) + k + encode_utf8("}}"@)
}

/// The model of a (name, replacement) pair list.
pub open spec fn pairs_model(pairs: Seq<(Vec<u8>, Vec<u8>)>) -> Seq<(Seq<u8>, Seq<u8>)>
    decreases pairs,
{
    if pairs.len() == 0 {
        Seq::empty()
    } else {
        seq![(pairs[0].0@, pairs[0].1@)] + pairs_model(pairs.drop_first())
    }
}

/// `pairs_model` maps the list pair by pair.
pub proof fn lemma_pairs_model(pairs: Seq<(Vec<u8>, Vec<u8>)>)
    ensures
        pairs_model(pairs).len() == pairs.len(),
        forall|i: int|
            0 <= i < pairs.len() ==> #[trigger] pairs_model(pairs)[i] == (
                pairs[i].0@,
                pairs[i].1@,
            ),
    decreases pairs,
{
    if pairs.len() > 0 {
        lemma_pairs_model(pairs.drop_first());
        assert forall|i: int| 0 <= i < pairs.len() implies #[trigger] pairs_model(pairs)[i] == (
            pairs[i].0@,
            pairs[i].1@,
        ) by {
            if i > 0 {
                assert(pairs.drop_first()[i - 1] == pairs[i]);
            }
        }
    }
}

/// The text after each pair's placeholder pattern has been replaced by its
/// value, one pair after the other.
pub open spec fn spec_render(s: Seq<u8>, pairs: Seq<(Seq<u8>, Seq<u8>)>) -> Seq<u8>
    decreases pairs.len(),
{
    if pairs.len() == 0 {
        s
    } else {
        spec_render(replace_all(s, key_pattern(pairs[0].0), pairs[0].1), pairs.drop_first())
    }
}

/// Render the placeholders of `template`: for each (name, value) pair, in
/// order, every occurrence of the name in double braces becomes the value.
#[verifier::loop_isolation(false)]
pub fn render_placeholders(template: &[u8], pairs: &Vec<(Vec<u8>, Vec<u8>)>) -> (r: Vec<u8>)
    ensures
        r@ == spec_render(template@, pairs_model(pairs@)),
{
    proof {
        lemma_pairs_model(pairs@);
    }
    let ghost pm = pairs_model(pairs@);
    let n = pairs.len();
    let mut acc = vstd::slice::slice_to_vec(template);
    let mut i: usize = 0;
    proof {
        assert(pm.skip(0) =~= pm);
    }
    while i < n
        invariant
            i <= n,
            n == pm.len(),
            spec_render(template@, pm) == spec_render(acc@, pm.skip(i as int)),
        decreases n - i,
    {
        let mut pattern: Vec<u8> = Vec::new();
        crate::text::append_bytes(&mut pattern, "{{".as_bytes());
        crate::text::append_bytes(&mut pattern, pairs[i].0.as_slice());
        crate::text::append_bytes(&mut pattern, "}}".as_bytes());
        proof {
            assert(pattern@ =~= key_pattern(pm[i as int].0));
        }
        let rendered = replace_bytes(acc.as_slice(), pattern.as_slice(), pairs[i].1.as_slice());
        acc = rendered;
        proof {
            assert(pm.skip(i as int)[0] == pm[i as int]);
            assert(pm.skip(i as int).drop_first() =~= pm.skip(i as int + 1));
        }
        i = i + 1;
    }
    proof {
        assert(pm.skip(n as int) =~= Seq::<(Seq<u8>, Seq<u8>)>::empty());
    }
    acc
}

/// The relative path of a fragment file: dots in the fragment id name
/// directories, under the fragment directory, with the markup suffix.
pub open spec fn spec_fragment_rel_path(frag_id: Seq<u8>) -> Seq<u8> {
    encode_utf8("fragments/"@) + frag_id.map_values(
        |b: u8|
            if b == 46 {
                47u8
            } else {
                b
            },
    ) + encode_utf8(".yaml"@)
}

/// The relative path of the fragment named `frag_id`.
#[verifier::loop_isolation(false)]
pub fn fragment_rel_path(frag_id: &[u8]) -> (r: Vec<u8>)
    ensures
        r@ == spec_fragment_rel_path(frag_id@),
{
    let mut out: Vec<u8> = Vec::new();
    crate::text::append_bytes(&mut out, "fragments/".as_bytes());
    let n = frag_id.len();
    let mut i: usize = 0;
    while i < n
        invariant
            i <= n,
            out@ =~= encode_utf8("fragments/"@) + frag_id@.take(i as int).map_values(
                |b: u8|
                    if b == 46 {
                        47u8
                    } else {
                        b
                    },
            ),
        decreases n - i,
    {
        let b = frag_id[i];
        if b == 46 {
            out.push(47);
        } else {
            out.push(b);
        }
        proof {
            assert(frag_id@.take(i as int).push(frag_id@[i as int]) =~= frag_id@.take(
                i as int + 1,
            ));
        }
        i = i + 1;
    }
    proof {
        assert(frag_id@.take(n as int) =~= frag_id@);
    }
    crate::text::append_bytes(&mut out, ".yaml".as_bytes());
    proof {
        assert(out@ =~= spec_fragment_rel_path(frag_id@));
    }
    out
}

/// The rendered fragment texts joined by blank lines.
pub open spec fn join_blocks(blocks: Seq<Seq<u8>>) -> Seq<u8>
    decreases blocks.len(),
{
    if blocks.len() == 0 {
        Seq::empty()
    } else if blocks.len() == 1 {
        blocks[0]
    } else {
        blocks[0] + encode_utf8("\n\n"@) + join_blocks(blocks.drop_first())
    }
}

/// Appending one block extends the joined text behind one more separator.
proof fn lemma_join_blocks_push(blocks: Seq<Seq<u8>>, b: Seq<u8>)
    requires
        blocks.len() > 0,
    ensures
        join_blocks(blocks.push(b)) == join_blocks(blocks) + encode_utf8("\n\n"@) + b,
    decreases blocks.len(),
{
    if blocks.len() == 1 {
        assert(blocks.push(b)[0] == blocks[0]);
        assert(blocks.push(b).drop_first() =~= seq![b]);
        assert(join_blocks(seq![b]) == b);
        assert(join_blocks(blocks.push(b)) =~= join_blocks(blocks) + encode_utf8("\n\n"@) + b);
    } else {
        lemma_join_blocks_push(blocks.drop_first(), b);
        assert(blocks.push(b).drop_first() =~= blocks.drop_first().push(b));
        assert(blocks.push(b)[0] == blocks[0]);
        assert(join_blocks(blocks.push(b)) =~= join_blocks(blocks) + encode_utf8("\n\n"@) + b);
    }
}

/// The model of a block list.
pub open spec fn blocks_model(blocks: Seq<Vec<u8>>) -> Seq<Seq<u8>> {
    blocks.map_values(|v: Vec<u8>| v@)
}

/// What the final prompt is: the joined fragment texts, then the
/// delimiter, then the user's input set off verbatim in a fenced block.
pub open spec fn spec_final_prompt(blocks: Seq<Seq<u8>>, user_input: Seq<u8>) -> Seq<u8> {
    join_blocks(blocks) + encode_utf8("\n---\nUSER_INPUT (verbatim):\n```text\n"@) + user_input
        + encode_utf8("\n```"@)
}

/// Build the final prompt from the rendered fragment texts and the user's
/// input.
#[verifier::loop_isolation(false)]
pub fn compose_final_prompt(blocks: &Vec<Vec<u8>>, user_input: &[u8]) -> (r: Vec<u8>)
    ensures
        r@ == spec_final_prompt(blocks_model(blocks@), user_input@),
{
    let ghost bm = blocks_model(blocks@);
    let n = blocks.len();
    let mut joined: Vec<u8> = Vec::new();
    let mut i: usize = 0;
    proof {
        assert(bm.take(0) =~= Seq::<Seq<u8>>::empty());
    }
    while i < n
        invariant
            i <= n,
            n == bm.len(),
            bm == blocks_model(blocks@),
            joined@ == join_blocks(bm.take(i as int)),
        decreases n - i,
    {
        if i > 0 {
            crate::text::append_bytes(&mut joined, "\n\n".as_bytes());
        }
        crate::text::append_bytes(&mut joined, blocks[i].as_slice());
        proof {
            let prefix = bm.take(i as int);
            assert(bm.take(i as int + 1) =~= prefix.push(bm[i as int]));
            if i > 0 {
                lemma_join_blocks_push(prefix, bm[i as int]);
            } else {
                assert(join_blocks(prefix.push(bm[i as int])) == bm[0]);
                assert(joined@ =~= bm[0]);
            }
        }
        i = i + 1;
    }
    proof {
        assert(bm.take(n as int) =~= bm);
    }
    crate::text::append_bytes(&mut joined, "\n---\nUSER_INPUT (verbatim):\n```text\n".as_bytes());
    crate::text::append_bytes(&mut joined, user_input);
    crate::text::append_bytes(&mut joined, "\n```".as_bytes());
    proof {
        assert(joined@ =~= spec_final_prompt(bm, user_input@));
    }
    joined
}

/// The merge of two field lists: the base fields whose names the overlay
/// does not bind, then every overlay field.
pub open spec fn spec_merge_fields(
    base: Seq<(Seq<char>, JsonModel)>,
    overlay: Seq<(Seq<char>, JsonModel)>,
) -> Seq<(Seq<char>, JsonModel)>
    decreases base.len(),
{
    if base.len() == 0 {
        overlay
    } else if has_key(overlay, base[0].0) {
        spec_merge_fields(base.drop_first(), overlay)
    } else {
        seq![base[0]] + spec_merge_fields(base.drop_first(), overlay)
    }
}

/// In a merge, every name the overlay binds has the overlay's value, and
/// every other name keeps the base's; no other name is bound.
pub proof fn lemma_merge_fields(
    base: Seq<(Seq<char>, JsonModel)>,
    overlay: Seq<(Seq<char>, JsonModel)>,
    k: Seq<char>,
)
    ensures
        has_key(spec_merge_fields(base, overlay), k) == (has_key(base, k) || has_key(overlay, k)),
        has_key(overlay, k) ==> lookup(spec_merge_fields(base, overlay), k) == lookup(overlay, k),
        !has_key(overlay, k) && has_key(base, k) ==> lookup(spec_merge_fields(base, overlay), k)
            == lookup(base, k),
    decreases base.len(),
{
    let m = spec_merge_fields(base, overlay);
    if base.len() == 0 {
        assert(!has_key(base, k));
    } else {
        lemma_merge_fields(base.drop_first(), overlay, k);
        let rest = base.drop_first();
        assert(has_key(base, k) == (base[0].0 == k || has_key(rest, k))) by {
            if has_key(base, k) {
                let w = choose|i: int| 0 <= i < base.len() && #[trigger] base[i].0 == k;
                if w > 0 {
                    assert(rest[w - 1] == base[w]);
                }
            }
            if has_key(rest, k) {
                let w = choose|i: int| 0 <= i < rest.len() && #[trigger] rest[i].0 == k;
                assert(base[w + 1] == rest[w]);
            }
        }
        if has_key(overlay, base[0].0) {
        } else {
            let sub = spec_merge_fields(rest, overlay);
            assert(m == seq![base[0]] + sub);
            assert(m[0] == base[0]);
            assert(m.drop_first() =~= sub);
            assert(has_key(m, k) == (base[0].0 == k || has_key(sub, k))) by {
                if has_key(m, k) {
                    let w = choose|i: int| 0 <= i < m.len() && #[trigger] m[i].0 == k;
                    if w > 0 {
                        assert(sub[w - 1] == m[w]);
                    }
                }
                if has_key(sub, k) {
                    let w = choose|i: int| 0 <= i < sub.len() && #[trigger] sub[i].0 == k;
                    assert(m[w + 1] == sub[w]);
                }
            }
        }
    }
}

/// Whether an object field list binds `key`.
#[verifier::loop_isolation(false)]
fn fields_have_key(fields: &Vec<(String, JsonValue)>, key: &str) -> (r: bool)
    ensures
        r == has_key(fields_model(fields@), key@),
{
    proof {
        crate::json::lemma_fields_model(fields@);
    }
    let ghost fm = fields_model(fields@);
    let n = fields.len();
    let mut i: usize = 0;
    while i < n
        invariant
            i <= n,
            n == fields@.len() == fm.len(),
            forall|j: int| 0 <= j < i ==> fm[j].0 != key@,
            forall|j: int|
                0 <= j < fields@.len() ==> fm[j] == (
                    #[trigger] fields@[j].0@,
                    fields@[j].1.model(),
                ),
        decreases n - i,
    {
        if crate::text::str_eq(fields[i].0.as_str(), key) {
            proof {
                crate::json::lemma_lookup_at(fm, key@, i as int);
            }
            return true;
        }
        i = i + 1;
    }
    proof {
        assert(!has_key(fm, key@));
    }
    false
}

/// Merge two parameter values: when both are objects, the overlay's fields
/// win over the base's; otherwise the base value stands unchanged.
#[verifier::loop_isolation(false)]
pub fn merge_params(base: &JsonValue, overlay: &JsonValue) -> (r: JsonValue)
    ensures
        (match (base.model(), overlay.model()) {
            (JsonModel::Obj(bf), JsonModel::Obj(of)) => r.model() == JsonModel::Obj(
                spec_merge_fields(bf, of),
            ),
            _ => r.model() == base.model(),
        }),
{
    let (bfields, ofields) = match (base, overlay) {
        (JsonValue::Obj(bf), JsonValue::Obj(of)) => (bf, of),
        _ => {
            return base.duplicate();
        },
    };
    proof {
        crate::json::lemma_fields_model(bfields@);
        crate::json::lemma_fields_model(ofields@);
    }
    let ghost bm = fields_model(bfields@);
    let ghost om = fields_model(ofields@);
    let nb = bfields.len();
    let mut out: Vec<(String, JsonValue)> = Vec::new();
    let mut i: usize = 0;
    proof {
        assert(bm.skip(0) =~= bm);
    }
    while i < nb
        invariant
            i <= nb,
            nb == bfields@.len() == bm.len(),
            om == fields_model(ofields@),
            bm == fields_model(bfields@),
            spec_merge_fields(bm, om) == fields_model(out@) + spec_merge_fields(
                bm.skip(i as int),
                om,
            ),
        decreases nb - i,
    {
        let ghost out0 = out@;
        proof {
            assert(bm.skip(i as int)[0] == bm[i as int]);
            assert(bm.skip(i as int).drop_first() =~= bm.skip(i as int + 1));
        }
        if !fields_have_key(ofields, bfields[i].0.as_str()) {
            let key = bfields[i].0.clone();
            let value = bfields[i].1.duplicate();
            out.push((key, value));
            proof {
                lemma_fields_model_push(out0, out@.last());
                assert(out@.last().0@ == bm[i as int].0);
                assert(out@.last().1.model() == bm[i as int].1);
                assert(fields_model(out@) =~= fields_model(out0) + seq![bm[i as int]]);
            }
        }
        i = i + 1;
    }
    proof {
        assert(bm.skip(nb as int) =~= Seq::<(Seq<char>, JsonModel)>::empty());
        let full = spec_merge_fields(bm, om);
        assert(full == fields_model(out@) + om);
        assert(fields_model(out@) =~= full.take(full.len() - om.len()));
        assert(full.skip(full.len() - om.len()) =~= om);
        assert(om.skip(0) =~= om);
    }
    let no = ofields.len();
    let mut k: usize = 0;
    while k < no
        invariant
            k <= no,
            no == ofields@.len() == om.len(),
            om == fields_model(ofields@),
            fields_model(out@) == spec_merge_fields(bm, om).take(
                spec_merge_fields(bm, om).len() - om.len() + k,
            ),
            spec_merge_fields(bm, om).len() == fields_model(out@).len() + om.len() - k,
            spec_merge_fields(bm, om).skip(
                spec_merge_fields(bm, om).len() - om.len() + k,
            ) =~= om.skip(k as int),
        decreases no - k,
    {
        let ghost out0 = out@;
        let key = ofields[k].0.clone();
        let value = ofields[k].1.duplicate();
        out.push((key, value));
        proof {
            lemma_fields_model_push(out0, out@.last());
            assert(out@.last().0@ == om[k as int].0);
            assert(out@.last().1.model() == om[k as int].1);
            let full = spec_merge_fields(bm, om);
            assert(fields_model(out@) =~= fields_model(out0) + seq![om[k as int]]);
            assert(om.skip(k as int)[0] == om[k as int]);
            assert(full.take(full.len() - om.len() + k + 1) =~= full.take(
                full.len() - om.len() + k,
            ).push(om[k as int]));
            assert(om.skip(k as int).drop_first() =~= om.skip(k as int + 1));
        }
        k = k + 1;
    }
    proof {
        let full = spec_merge_fields(bm, om);
        assert(fields_model(out@) =~= full);
    }
    JsonValue::Obj(out)
}

/// Appending one field extends the model by its pair.
proof fn lemma_fields_model_push(fields: Seq<(String, JsonValue)>, f: (String, JsonValue))
    ensures
        fields_model(fields.push(f)) == fields_model(fields) + seq![(f.0@, f.1.model())],
    decreases fields.len(),
{
    if fields.len() == 0 {
        assert(fields.push(f).drop_first() =~= Seq::<(String, JsonValue)>::empty());
        assert(fields_model(Seq::<(String, JsonValue)>::empty())
            =~= Seq::<(Seq<char>, JsonModel)>::empty());
        assert(fields.push(f)[0] == f);
        assert(fields_model(fields.push(f)) =~= fields_model(fields) + seq![(f.0@, f.1.model())]);
    } else {
        lemma_fields_model_push(fields.drop_first(), f);
        assert(fields.push(f).drop_first() =~= fields.drop_first().push(f));
        assert(fields.push(f)[0] == fields[0]);
        assert(fields_model(fields.push(f)) =~= fields_model(fields) + seq![(f.0@, f.1.model())]);
    }
}

} // verus!
