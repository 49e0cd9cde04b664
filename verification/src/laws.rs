//! Properties that relate the library's functions to one another, stated
//! and proved once: how the built path and query preserve the base endpoint,
//! that encoding and extraction round-trip, that distinct targets yield
//! distinct URLs, and how enrichment treats colliding tags.

use vstd::prelude::*;
use vstd::utf8::*;
use crate::codec::{
    lemma_component_round_trip, lemma_pct_encode_ascii, lemma_pct_encode_bytes_are_plain,
    spec_pct_encode,
};
use crate::enrich::{
    spec_custom_applied, spec_exported_key, spec_opt_label_applied, spec_tag_applied,
    BlackboxExporterContext,
};
use crate::probe::{
    lemma_first_amp_bounds, lemma_first_amp_is, spec_built_query, spec_encoded_chars,
    spec_extracted_target, spec_first_amp, spec_has_target_prefix, spec_probe_path,
    spec_strip_slash, spec_target_key, spec_target_param, Endpoint,
};
use crate::tags::spec_unique_keys;

verus! {

/// Whether a sequence starts with a prefix.
pub open spec fn spec_has_prefix(s: Seq<char>, p: Seq<char>) -> bool {
    s.len() >= p.len() && s.take(p.len() as int) == p
}

/// UTF-8 encoding distributes over concatenation.
proof fn lemma_encode_utf8_append(a: Seq<char>, b: Seq<char>)
    ensures
        encode_utf8(a + b) == encode_utf8(a) + encode_utf8(b),
    decreases a.len(),
{
    if a.len() == 0 {
        assert(a + b =~= b);
        assert(encode_utf8(a) =~= Seq::<u8>::empty());
        assert(encode_utf8(a) + encode_utf8(b) =~= encode_utf8(b));
    } else {
        assert((a + b)[0] == a[0]);
        assert((a + b).drop_first() =~= a.drop_first() + b);
        lemma_encode_utf8_append(a.drop_first(), b);
        assert(encode_utf8(a + b) =~= encode_utf8(a) + encode_utf8(b));
    }
}

/// The built probe path is the base path with a single trailing slash
/// stripped, then `/probe`; and a base path holding no double slash yields
/// a probe path holding none, so `//probe` never appears.
pub proof fn lemma_probe_path_no_double_slash(p: Seq<char>)
    requires
        forall|i: int| 0 <= i < p.len() - 1 ==> !(#[trigger] p[i] == '/' && p[i + 1] == '/'),
    ensures
        spec_probe_path(p) == spec_strip_slash(p) + "/probe"@,
        forall|i: int|
            0 <= i < spec_probe_path(p).len() - 1 ==> !(#[trigger] spec_probe_path(p)[i] == '/'
                && spec_probe_path(p)[i + 1] == '/'),
{
    reveal_strlit("/probe");
    let s = spec_strip_slash(p);
    let r = spec_probe_path(p);
    assert(s.len() == 0 || s.last() != '/');
    assert forall|i: int|
        0 <= i < r.len() - 1 implies !(#[trigger] r[i] == '/' && r[i + 1] == '/') by {
        if i < s.len() - 1 {
            assert(r[i] == p[i] && r[i + 1] == p[i + 1]);
        } else if i == s.len() - 1 {
            assert(r[i] == s.last());
            assert(r[i + 1] == "/probe"@[0]);
        } else {
            assert(r[i] == "/probe"@[i - s.len()]);
            assert(r[i + 1] == "/probe"@[i + 1 - s.len()]);
        }
    }
}

/// The built query of a base endpoint with an existing query starts with
/// that query, unchanged, followed by `&`.
pub proof fn lemma_built_query_preserves_base(qs: Seq<char>, t: Seq<char>, m: Seq<char>)
    ensures
        spec_built_query(Option::Some(qs), t, m).len() > qs.len(),
        spec_built_query(Option::Some(qs), t, m).take(qs.len() as int) == qs,
        spec_built_query(Option::Some(qs), t, m)[qs.len() as int] == '&',
{
    reveal_strlit("&target=");
    let r = spec_built_query(Option::Some(qs), t, m);
    assert(r.take(qs.len() as int) =~= qs);
    assert(r[qs.len() as int] == "&target="@[0]);
}

/// Splitting at a `&` separator: the first `target=` parameter of
/// `a & b` is the one of `a` where `a` holds one, else the one of `b`.
proof fn lemma_target_param_append(a: Seq<u8>, b: Seq<u8>)
    ensures
        spec_target_param(a + seq![0x26u8] + b) == (if spec_target_param(a) is Some {
            spec_target_param(a)
        } else {
            spec_target_param(b)
        }),
    decreases a.len(),
{
    let w = a + seq![0x26u8] + b;
    lemma_first_amp_bounds(a);
    let ea = spec_first_amp(a) as int;
    assert forall|j: int| 0 <= j < ea implies w[j] != 0x26 by {
        assert(w[j] == a[j]);
    }
    if ea < a.len() {
        assert(w[ea] == a[ea]);
        lemma_first_amp_is(w, ea);
        assert(w.take(ea) =~= a.take(ea));
        let seg = a.take(ea);
        if spec_has_target_prefix(seg) {
        } else {
            assert(w.skip(ea + 1) =~= a.skip(ea + 1) + seq![0x26u8] + b);
            lemma_target_param_append(a.skip(ea + 1), b);
        }
    } else {
        assert(ea == a.len());
        assert(w[ea] == 0x26);
        lemma_first_amp_is(w, ea);
        assert(w.take(ea) =~= a.take(ea));
        let seg = a.take(ea);
        if spec_has_target_prefix(seg) {
        } else {
            assert(w.skip(ea + 1) =~= b);
        }
    }
}

/// A byte sequence of the shape `target=<v>` with `v` free of `&` is one
/// segment, and its `target=` parameter is `v`.
proof fn lemma_target_param_whole(v: Seq<u8>)
    requires
        forall|j: int| 0 <= j < v.len() ==> v[j] != 0x26,
    ensures
        spec_target_param(spec_target_key() + v) == Option::Some(v),
{
    let a = spec_target_key() + v;
    assert forall|j: int| 0 <= j < a.len() implies a[j] != 0x26 by {
        if j < 7 {
            assert(a[j] == spec_target_key()[j]);
        } else {
            assert(a[j] == v[j - 7]);
        }
    }
    lemma_first_amp_is(a, a.len() as int);
    let seg = a.take(a.len() as int);
    assert(seg =~= a);
    assert(seg.take(7) =~= spec_target_key());
    assert(spec_has_target_prefix(seg));
    assert(seg.skip(7) =~= v);
}

/// The bytes of the literal `target=`.
proof fn lemma_target_literal_bytes()
    ensures
        encode_utf8("target="@) == spec_target_key(),
        encode_utf8("&target="@) == seq![0x26u8] + spec_target_key(),
        encode_utf8("&module="@).len() == 8,
        encode_utf8("&module="@)[0] == 0x26,
{
    reveal_strlit("target=");
    reveal_strlit("&target=");
    reveal_strlit("&module=");
    assert(is_ascii_chars("target="@));
    assert(is_ascii_chars("&target="@));
    assert(is_ascii_chars("&module="@));
    is_ascii_chars_encode_utf8("target="@);
    is_ascii_chars_encode_utf8("&target="@);
    is_ascii_chars_encode_utf8("&module="@);
    assert(encode_utf8("target="@) =~= spec_target_key());
    assert(encode_utf8("&target="@) =~= seq![0x26u8] + spec_target_key());
}

/// The encoded bytes of a value hold no `&`.
proof fn lemma_encoded_amp_free(t: Seq<char>)
    ensures
        forall|j: int|
            0 <= j < spec_pct_encode(encode_utf8(t)).len() ==> #[trigger] spec_pct_encode(
                encode_utf8(t),
            )[j] != 0x26,
        encode_utf8(spec_encoded_chars(t)) == spec_pct_encode(encode_utf8(t)),
{
    lemma_pct_encode_bytes_are_plain(encode_utf8(t));
    lemma_pct_encode_ascii(encode_utf8(t));
    crate::codec::lemma_ascii_valid_utf8(spec_pct_encode(encode_utf8(t)));
    broadcast use vstd::utf8::decode_utf8_encode_utf8;

}

/// The first `target=` parameter of a built query is exactly the encoded
/// target, provided the base query holds no `target=` parameter of its own.
pub proof fn lemma_built_query_target_param(q: Option<Seq<char>>, t: Seq<char>, m: Seq<char>)
    requires
        match q {
            Option::Some(qs) => spec_target_param(encode_utf8(qs)) is None,
            Option::None => true,
        },
    ensures
        spec_target_param(encode_utf8(spec_built_query(q, t, m))) == Option::Some(
            spec_pct_encode(encode_utf8(t)),
        ),
{
    let p = spec_pct_encode(encode_utf8(t));
    let et = spec_encoded_chars(t);
    let em = spec_encoded_chars(m);
    lemma_target_literal_bytes();
    lemma_encoded_amp_free(t);
    lemma_encoded_amp_free(m);
    let mod_bytes = encode_utf8("&module="@) + encode_utf8(em);
    let tail = mod_bytes.drop_first();
    // The suffix after the target value starts with the `&` of `&module=`.
    assert(mod_bytes[0] == 0x26);
    match q {
        Option::None => {
            let built = spec_built_query(q, t, m);
            assert(built == "target="@ + et + "&module="@ + em);
            lemma_encode_utf8_append("target="@, et);
            lemma_encode_utf8_append("target="@ + et, "&module="@);
            lemma_encode_utf8_append("target="@ + et + "&module="@, em);
            assert(encode_utf8(built) =~= (spec_target_key() + p) + seq![0x26u8] + tail);
            lemma_target_param_append(spec_target_key() + p, tail);
            lemma_target_param_whole(p);
        },
        Option::Some(qs) => {
            let built = spec_built_query(q, t, m);
            assert(built == qs + "&target="@ + et + "&module="@ + em);
            lemma_encode_utf8_append(qs, "&target="@);
            lemma_encode_utf8_append(qs + "&target="@, et);
            lemma_encode_utf8_append(qs + "&target="@ + et, "&module="@);
            lemma_encode_utf8_append(qs + "&target="@ + et + "&module="@, em);
            let inner = spec_target_key() + p + seq![0x26u8] + tail;
            assert(encode_utf8(built) =~= encode_utf8(qs) + seq![0x26u8] + inner);
            lemma_target_param_append(encode_utf8(qs), inner);
            assert(inner =~= (spec_target_key() + p) + seq![0x26u8] + tail);
            lemma_target_param_append(spec_target_key() + p, tail);
            lemma_target_param_whole(p);
        },
    }
}

/// Round trip: extracting and percent-decoding the `target=` parameter of a
/// built query yields the original target exactly, provided the base query
/// holds no `target=` parameter of its own.
pub proof fn lemma_built_query_round_trip(q: Option<Seq<char>>, t: Seq<char>, m: Seq<char>)
    requires
        match q {
            Option::Some(qs) => spec_target_param(encode_utf8(qs)) is None,
            Option::None => true,
        },
    ensures
        spec_extracted_target(spec_built_query(q, t, m)) == t,
{
    lemma_built_query_target_param(q, t, m);
    lemma_component_round_trip(t);
}

/// Equal concatenations with the same left part have equal right parts.
proof fn lemma_append_cancel_left(a: Seq<char>, x: Seq<char>, y: Seq<char>)
    requires
        a + x == a + y,
    ensures
        x == y,
{
    assert(x =~= (a + x).skip(a.len() as int));
    assert(y =~= (a + y).skip(a.len() as int));
}

/// Distinct targets give distinct probe URLs for one base endpoint,
/// provided the base query holds no `target=` parameter of its own.
pub proof fn lemma_distinct_targets_distinct_urls(
    base: Endpoint,
    t1: Seq<char>,
    t2: Seq<char>,
    m: Seq<char>,
)
    requires
        t1 != t2,
        match base.spec_query() {
            Option::Some(qs) => spec_target_param(encode_utf8(qs)) is None,
            Option::None => true,
        },
    ensures
        base.spec_probe_url(t1, m) != base.spec_probe_url(t2, m),
{
    if base.spec_probe_url(t1, m) == base.spec_probe_url(t2, m) {
        let prefix = base.spec_scheme() + "://"@ + base.spec_authority() + spec_probe_path(
            base.path@,
        ) + "?"@;
        let q1 = spec_built_query(base.spec_query(), t1, m);
        let q2 = spec_built_query(base.spec_query(), t2, m);
        assert(base.spec_probe_url(t1, m) =~= prefix + q1);
        assert(base.spec_probe_url(t2, m) =~= prefix + q2);
        lemma_append_cancel_left(prefix, q1, q2);
        lemma_built_query_round_trip(base.spec_query(), t1, m);
        lemma_built_query_round_trip(base.spec_query(), t2, m);
        assert(false);
    }
}

/// The exported name of a key: nine characters of `exported_`, then the key.
proof fn lemma_exported_prefix(k: Seq<char>)
    ensures
        spec_exported_key(k).len() == 9 + k.len(),
        spec_exported_key(k).skip(9) == k,
        spec_has_prefix(spec_exported_key(k), "exported_"@),
{
    reveal_strlit("exported_");
    assert(spec_exported_key(k).skip(9) =~= k);
    assert(spec_exported_key(k).take(9) =~= "exported_"@);
}

/// Distinct keys have distinct exported names.
proof fn lemma_exported_injective(a: Seq<char>, b: Seq<char>)
    requires
        a != b,
    ensures
        spec_exported_key(a) != spec_exported_key(b),
{
    if spec_exported_key(a) == spec_exported_key(b) {
        lemma_exported_prefix(a);
        lemma_exported_prefix(b);
        assert(spec_exported_key(a).skip(9) == spec_exported_key(b).skip(9));
    }
}

/// The label keys enrichment uses, their lengths and the pairs of them that
/// share a length but differ.
proof fn lemma_label_key_facts()
    ensures
        spec_exported_key("target"@) == "exported_target"@,
        spec_exported_key("module"@) == "exported_module"@,
        spec_exported_key("region"@) == "exported_region"@,
        "target"@.len() == 6,
        "module"@.len() == 6,
        "geohash"@.len() == 7,
        "region"@.len() == 6,
        "location"@.len() == 8,
        "country"@.len() == 7,
        "name"@.len() == 4,
        "provider"@.len() == 8,
        "exported_target"@.len() == 15,
        "exported_module"@.len() == 15,
        "exported_region"@.len() == 15,
        "target"@ != "module"@,
        "target"@ != "region"@,
        "module"@ != "region"@,
{
    reveal_strlit("exported_");
    reveal_strlit("target");
    reveal_strlit("module");
    reveal_strlit("region");
    reveal_strlit("geohash");
    reveal_strlit("location");
    reveal_strlit("country");
    reveal_strlit("name");
    reveal_strlit("provider");
    reveal_strlit("exported_target");
    reveal_strlit("exported_module");
    reveal_strlit("exported_region");
    assert(spec_exported_key("target"@) =~= "exported_target"@);
    assert(spec_exported_key("module"@) =~= "exported_module"@);
    assert(spec_exported_key("region"@) =~= "exported_region"@);
    assert("target"@ != "module"@) by {
        if "target"@ == "module"@ {
            assert("target"@[0] == "module"@[0]);
        }
    }
    assert("target"@ != "region"@) by {
        if "target"@ == "region"@ {
            assert("target"@[0] == "region"@[0]);
        }
    }
    assert("module"@ != "region"@) by {
        if "module"@ == "region"@ {
            assert("module"@[0] == "region"@[0]);
        }
    }
}

/// One rename-then-set step leaves every key other than the written one and
/// its exported name untouched.
proof fn lemma_tag_applied_frame(
    m: Map<Seq<char>, Seq<char>>,
    k: Seq<char>,
    v: Seq<char>,
    k2: Seq<char>,
)
    requires
        k2 != k,
        k2 != spec_exported_key(k),
    ensures
        spec_tag_applied(m, k, v).contains_key(k2) == m.contains_key(k2),
        m.contains_key(k2) ==> spec_tag_applied(m, k, v)[k2] == m[k2],
{
}

/// One optional label step leaves every key other than the written one and
/// its exported name untouched.
proof fn lemma_opt_label_frame(
    m: Map<Seq<char>, Seq<char>>,
    k: Seq<char>,
    ov: Option<Seq<char>>,
    k2: Seq<char>,
)
    requires
        k2 != k,
        k2 != spec_exported_key(k),
    ensures
        spec_opt_label_applied(m, k, ov).contains_key(k2) == m.contains_key(k2),
        m.contains_key(k2) ==> spec_opt_label_applied(m, k, ov)[k2] == m[k2],
{
    match ov {
        Option::None => {},
        Option::Some(v) => {
            if v.len() > 0 {
                lemma_tag_applied_frame(m, k, v, k2);
            }
        },
    }
}

/// The ad-hoc label steps leave a key untouched when no pair's key or
/// exported name is that key.
proof fn lemma_custom_applied_frame(
    m: Map<Seq<char>, Seq<char>>,
    ps: Seq<(Seq<char>, Seq<char>)>,
    k2: Seq<char>,
)
    requires
        forall|j: int|
            0 <= j < ps.len() ==> (#[trigger] ps[j]).0 != k2 && spec_exported_key(ps[j].0) != k2,
    ensures
        spec_custom_applied(m, ps).contains_key(k2) == m.contains_key(k2),
        m.contains_key(k2) ==> spec_custom_applied(m, ps)[k2] == m[k2],
    decreases ps.len(),
{
    if ps.len() > 0 {
        let m2 = spec_opt_label_applied(m, ps[0].0, Option::Some(ps[0].1));
        lemma_opt_label_frame(m, ps[0].0, Option::Some(ps[0].1), k2);
        assert forall|j: int|
            0 <= j < ps.drop_first().len() implies (#[trigger] ps.drop_first()[j]).0 != k2
            && spec_exported_key(ps.drop_first()[j].0) != k2 by {
            assert(ps.drop_first()[j] == ps[j + 1]);
        }
        lemma_custom_applied_frame(m2, ps.drop_first(), k2);
    }
}

/// After the ad-hoc label steps, a pair with a unique key, a non-empty value
/// and a key that is no pair's exported name stands in the mapping exactly
/// as written.
proof fn lemma_custom_applied_wins(
    m: Map<Seq<char>, Seq<char>>,
    ps: Seq<(Seq<char>, Seq<char>)>,
    i: int,
)
    requires
        spec_unique_keys(ps),
        0 <= i < ps.len(),
        ps[i].1.len() > 0,
        forall|j: int| 0 <= j < ps.len() ==> spec_exported_key((#[trigger] ps[j]).0) != ps[i].0,
    ensures
        spec_custom_applied(m, ps).contains_key(ps[i].0),
        spec_custom_applied(m, ps)[ps[i].0] == ps[i].1,
    decreases i,
{
    let rest = ps.drop_first();
    let m2 = spec_opt_label_applied(m, ps[0].0, Option::Some(ps[0].1));
    if i == 0 {
        assert(m2.contains_key(ps[0].0) && m2[ps[0].0] == ps[0].1);
        assert forall|j: int|
            0 <= j < rest.len() implies (#[trigger] rest[j]).0 != ps[0].0 && spec_exported_key(
            rest[j].0,
        ) != ps[0].0 by {
            assert(rest[j] == ps[j + 1]);
        }
        lemma_custom_applied_frame(m2, rest, ps[0].0);
    } else {
        assert forall|a: int, b: int|
            0 <= a < b < rest.len() implies (#[trigger] rest[a]).0 != (#[trigger] rest[b]).0 by {
            assert(rest[a] == ps[a + 1]);
            assert(rest[b] == ps[b + 1]);
        }
        assert(rest[i - 1] == ps[i]);
        assert forall|j: int|
            0 <= j < rest.len() implies spec_exported_key((#[trigger] rest[j]).0) != rest[i
            - 1].0 by {
            assert(rest[j] == ps[j + 1]);
        }
        lemma_custom_applied_wins(m2, rest, i - 1);
    }
}

/// Rename round trip for the target tag: enriching a measurement that
/// already holds a `target` tag leaves the context's target under `target`
/// and the old value under `exported_target`, provided no ad-hoc label is
/// named `target` or `exported_target`.
pub proof fn lemma_enrich_renames_target(
    ctx: BlackboxExporterContext,
    m: Map<Seq<char>, Seq<char>>,
)
    requires
        ctx.wf(),
        m.contains_key("target"@),
        forall|j: int|
            0 <= j < ctx.optional_labels.custom.pairs().len() ==> (
            #[trigger] ctx.optional_labels.custom.pairs()[j]).0 != "target"@
                && ctx.optional_labels.custom.pairs()[j].0 != "exported_target"@,
    ensures
        ctx.spec_enrich(m).contains_key("target"@),
        ctx.spec_enrich(m)["target"@] == ctx.target@,
        ctx.spec_enrich(m).contains_key("exported_target"@),
        ctx.spec_enrich(m)["exported_target"@] == m["target"@],
{
    lemma_label_key_facts();
    let ps = ctx.optional_labels.custom.pairs();
    let tgt = "target"@;
    let xtgt = "exported_target"@;
    let labels = ctx.optional_labels;
    let m1 = spec_tag_applied(m, tgt, ctx.target@);
    assert(m1.contains_key(tgt) && m1[tgt] == ctx.target@);
    assert(m1.contains_key(xtgt) && m1[xtgt] == m[tgt]);
    let m2 = spec_tag_applied(m1, "module"@, ctx.module@);
    lemma_exported_injective("module"@, tgt);
    lemma_exported_prefix("module"@);
    lemma_tag_applied_frame(m1, "module"@, ctx.module@, tgt);
    lemma_tag_applied_frame(m1, "module"@, ctx.module@, xtgt);
    let m3 = spec_opt_label_applied(m2, "geohash"@, crate::enrich::spec_opt_view(labels.geohash));
    lemma_exported_prefix("geohash"@);
    lemma_opt_label_frame(m2, "geohash"@, crate::enrich::spec_opt_view(labels.geohash), tgt);
    lemma_opt_label_frame(m2, "geohash"@, crate::enrich::spec_opt_view(labels.geohash), xtgt);
    let m4 = spec_opt_label_applied(m3, "region"@, crate::enrich::spec_opt_view(labels.region));
    lemma_exported_injective("region"@, tgt);
    lemma_exported_prefix("region"@);
    lemma_opt_label_frame(m3, "region"@, crate::enrich::spec_opt_view(labels.region), tgt);
    lemma_opt_label_frame(m3, "region"@, crate::enrich::spec_opt_view(labels.region), xtgt);
    let m5 = spec_opt_label_applied(m4, "location"@, crate::enrich::spec_opt_view(labels.location));
    lemma_exported_prefix("location"@);
    lemma_opt_label_frame(m4, "location"@, crate::enrich::spec_opt_view(labels.location), tgt);
    lemma_opt_label_frame(m4, "location"@, crate::enrich::spec_opt_view(labels.location), xtgt);
    let m6 = spec_opt_label_applied(m5, "country"@, crate::enrich::spec_opt_view(labels.country));
    lemma_exported_prefix("country"@);
    lemma_opt_label_frame(m5, "country"@, crate::enrich::spec_opt_view(labels.country), tgt);
    lemma_opt_label_frame(m5, "country"@, crate::enrich::spec_opt_view(labels.country), xtgt);
    let m7 = spec_opt_label_applied(m6, "name"@, crate::enrich::spec_opt_view(labels.name));
    lemma_exported_prefix("name"@);
    lemma_opt_label_frame(m6, "name"@, crate::enrich::spec_opt_view(labels.name), tgt);
    lemma_opt_label_frame(m6, "name"@, crate::enrich::spec_opt_view(labels.name), xtgt);
    let m8 = spec_opt_label_applied(m7, "provider"@, crate::enrich::spec_opt_view(labels.provider));
    lemma_exported_prefix("provider"@);
    lemma_opt_label_frame(m7, "provider"@, crate::enrich::spec_opt_view(labels.provider), tgt);
    lemma_opt_label_frame(m7, "provider"@, crate::enrich::spec_opt_view(labels.provider), xtgt);
    assert forall|j: int|
        0 <= j < ps.len() implies (#[trigger] ps[j]).0 != tgt && spec_exported_key(ps[j].0)
        != tgt by {
        lemma_exported_prefix(ps[j].0);
    }
    lemma_custom_applied_frame(m8, ps, tgt);
    assert forall|j: int|
        0 <= j < ps.len() implies (#[trigger] ps[j]).0 != xtgt && spec_exported_key(ps[j].0)
        != xtgt by {
        if spec_exported_key(ps[j].0) == xtgt {
            lemma_exported_prefix(ps[j].0);
            lemma_exported_prefix(tgt);
            assert(ps[j].0 == spec_exported_key(tgt).skip(9));
        }
    }
    lemma_custom_applied_frame(m8, ps, xtgt);
}

/// Rename round trip for the module tag, exactly as for the target tag.
pub proof fn lemma_enrich_renames_module(
    ctx: BlackboxExporterContext,
    m: Map<Seq<char>, Seq<char>>,
)
    requires
        ctx.wf(),
        m.contains_key("module"@),
        forall|j: int|
            0 <= j < ctx.optional_labels.custom.pairs().len() ==> (
            #[trigger] ctx.optional_labels.custom.pairs()[j]).0 != "module"@
                && ctx.optional_labels.custom.pairs()[j].0 != "exported_module"@,
    ensures
        ctx.spec_enrich(m).contains_key("module"@),
        ctx.spec_enrich(m)["module"@] == ctx.module@,
        ctx.spec_enrich(m).contains_key("exported_module"@),
        ctx.spec_enrich(m)["exported_module"@] == m["module"@],
{
    lemma_label_key_facts();
    let ps = ctx.optional_labels.custom.pairs();
    let md = "module"@;
    let xmd = "exported_module"@;
    let labels = ctx.optional_labels;
    let m1 = spec_tag_applied(m, "target"@, ctx.target@);
    lemma_exported_prefix("target"@);
    lemma_tag_applied_frame(m, "target"@, ctx.target@, md);
    lemma_exported_injective("target"@, md);
    lemma_tag_applied_frame(m, "target"@, ctx.target@, xmd);
    let m2 = spec_tag_applied(m1, md, ctx.module@);
    assert(m2.contains_key(md) && m2[md] == ctx.module@);
    assert(m2.contains_key(xmd) && m2[xmd] == m1[md]);
    let m3 = spec_opt_label_applied(m2, "geohash"@, crate::enrich::spec_opt_view(labels.geohash));
    lemma_exported_prefix("geohash"@);
    lemma_opt_label_frame(m2, "geohash"@, crate::enrich::spec_opt_view(labels.geohash), md);
    lemma_opt_label_frame(m2, "geohash"@, crate::enrich::spec_opt_view(labels.geohash), xmd);
    let m4 = spec_opt_label_applied(m3, "region"@, crate::enrich::spec_opt_view(labels.region));
    lemma_exported_injective("region"@, md);
    lemma_exported_prefix("region"@);
    lemma_opt_label_frame(m3, "region"@, crate::enrich::spec_opt_view(labels.region), md);
    lemma_opt_label_frame(m3, "region"@, crate::enrich::spec_opt_view(labels.region), xmd);
    let m5 = spec_opt_label_applied(m4, "location"@, crate::enrich::spec_opt_view(labels.location));
    lemma_exported_prefix("location"@);
    lemma_opt_label_frame(m4, "location"@, crate::enrich::spec_opt_view(labels.location), md);
    lemma_opt_label_frame(m4, "location"@, crate::enrich::spec_opt_view(labels.location), xmd);
    let m6 = spec_opt_label_applied(m5, "country"@, crate::enrich::spec_opt_view(labels.country));
    lemma_exported_prefix("country"@);
    lemma_opt_label_frame(m5, "country"@, crate::enrich::spec_opt_view(labels.country), md);
    lemma_opt_label_frame(m5, "country"@, crate::enrich::spec_opt_view(labels.country), xmd);
    let m7 = spec_opt_label_applied(m6, "name"@, crate::enrich::spec_opt_view(labels.name));
    lemma_exported_prefix("name"@);
    lemma_opt_label_frame(m6, "name"@, crate::enrich::spec_opt_view(labels.name), md);
    lemma_opt_label_frame(m6, "name"@, crate::enrich::spec_opt_view(labels.name), xmd);
    let m8 = spec_opt_label_applied(m7, "provider"@, crate::enrich::spec_opt_view(labels.provider));
    lemma_exported_prefix("provider"@);
    lemma_opt_label_frame(m7, "provider"@, crate::enrich::spec_opt_view(labels.provider), md);
    lemma_opt_label_frame(m7, "provider"@, crate::enrich::spec_opt_view(labels.provider), xmd);
    assert forall|j: int|
        0 <= j < ps.len() implies (#[trigger] ps[j]).0 != md && spec_exported_key(ps[j].0)
        != md by {
        lemma_exported_prefix(ps[j].0);
    }
    lemma_custom_applied_frame(m8, ps, md);
    assert forall|j: int|
        0 <= j < ps.len() implies (#[trigger] ps[j]).0 != xmd && spec_exported_key(ps[j].0)
        != xmd by {
        if spec_exported_key(ps[j].0) == xmd {
            lemma_exported_prefix(ps[j].0);
            lemma_exported_prefix(md);
            assert(ps[j].0 == spec_exported_key(md).skip(9));
        }
    }
    lemma_custom_applied_frame(m8, ps, xmd);
}

/// A configured, non-empty region label on a measurement without a `region`
/// or `exported_region` tag ends as the `region` tag, and no
/// `exported_region` tag appears, provided no ad-hoc label is named `region`
/// or `exported_region`.
pub proof fn lemma_enrich_region_no_conflict(
    ctx: BlackboxExporterContext,
    m: Map<Seq<char>, Seq<char>>,
)
    requires
        ctx.wf(),
        ctx.optional_labels.region matches Some(v) && v@.len() > 0,
        !m.contains_key("region"@),
        !m.contains_key("exported_region"@),
        forall|j: int|
            0 <= j < ctx.optional_labels.custom.pairs().len() ==> (
            #[trigger] ctx.optional_labels.custom.pairs()[j]).0 != "region"@
                && ctx.optional_labels.custom.pairs()[j].0 != "exported_region"@,
    ensures
        ctx.spec_enrich(m).contains_key("region"@),
        ctx.spec_enrich(m)["region"@] == ctx.optional_labels.region->Some_0@,
        !ctx.spec_enrich(m).contains_key("exported_region"@),
{
    lemma_label_key_facts();
    let ps = ctx.optional_labels.custom.pairs();
    let rg = "region"@;
    let xrg = "exported_region"@;
    let labels = ctx.optional_labels;
    let m1 = spec_tag_applied(m, "target"@, ctx.target@);
    lemma_exported_prefix("target"@);
    lemma_tag_applied_frame(m, "target"@, ctx.target@, rg);
    lemma_exported_injective("target"@, rg);
    lemma_tag_applied_frame(m, "target"@, ctx.target@, xrg);
    let m2 = spec_tag_applied(m1, "module"@, ctx.module@);
    lemma_exported_prefix("module"@);
    lemma_tag_applied_frame(m1, "module"@, ctx.module@, rg);
    lemma_exported_injective("module"@, rg);
    lemma_tag_applied_frame(m1, "module"@, ctx.module@, xrg);
    let m3 = spec_opt_label_applied(m2, "geohash"@, crate::enrich::spec_opt_view(labels.geohash));
    lemma_exported_prefix("geohash"@);
    lemma_opt_label_frame(m2, "geohash"@, crate::enrich::spec_opt_view(labels.geohash), rg);
    lemma_opt_label_frame(m2, "geohash"@, crate::enrich::spec_opt_view(labels.geohash), xrg);
    let m4 = spec_opt_label_applied(m3, rg, crate::enrich::spec_opt_view(labels.region));
    assert(!m3.contains_key(rg));
    assert(m4 == m3.insert(rg, labels.region->Some_0@));
    assert(m4.contains_key(rg) && m4[rg] == labels.region->Some_0@);
    assert(!m4.contains_key(xrg));
    let m5 = spec_opt_label_applied(m4, "location"@, crate::enrich::spec_opt_view(labels.location));
    lemma_exported_prefix("location"@);
    lemma_opt_label_frame(m4, "location"@, crate::enrich::spec_opt_view(labels.location), rg);
    lemma_opt_label_frame(m4, "location"@, crate::enrich::spec_opt_view(labels.location), xrg);
    let m6 = spec_opt_label_applied(m5, "country"@, crate::enrich::spec_opt_view(labels.country));
    lemma_exported_prefix("country"@);
    lemma_opt_label_frame(m5, "country"@, crate::enrich::spec_opt_view(labels.country), rg);
    lemma_opt_label_frame(m5, "country"@, crate::enrich::spec_opt_view(labels.country), xrg);
    let m7 = spec_opt_label_applied(m6, "name"@, crate::enrich::spec_opt_view(labels.name));
    lemma_exported_prefix("name"@);
    lemma_opt_label_frame(m6, "name"@, crate::enrich::spec_opt_view(labels.name), rg);
    lemma_opt_label_frame(m6, "name"@, crate::enrich::spec_opt_view(labels.name), xrg);
    let m8 = spec_opt_label_applied(m7, "provider"@, crate::enrich::spec_opt_view(labels.provider));
    lemma_exported_prefix("provider"@);
    lemma_opt_label_frame(m7, "provider"@, crate::enrich::spec_opt_view(labels.provider), rg);
    lemma_opt_label_frame(m7, "provider"@, crate::enrich::spec_opt_view(labels.provider), xrg);
    assert forall|j: int|
        0 <= j < ps.len() implies (#[trigger] ps[j]).0 != rg && spec_exported_key(ps[j].0)
        != rg by {
        lemma_exported_prefix(ps[j].0);
    }
    lemma_custom_applied_frame(m8, ps, rg);
    assert forall|j: int|
        0 <= j < ps.len() implies (#[trigger] ps[j]).0 != xrg && spec_exported_key(ps[j].0)
        != xrg by {
        if spec_exported_key(ps[j].0) == xrg {
            lemma_exported_prefix(ps[j].0);
            lemma_exported_prefix(rg);
            assert(ps[j].0 == spec_exported_key(rg).skip(9));
        }
    }
    lemma_custom_applied_frame(m8, ps, xrg);
}

/// A region label configured as the empty string adds no `region` tag at
/// all: a measurement without one still has none after enrichment, provided
/// no ad-hoc label is named `region`.
pub proof fn lemma_enrich_empty_region_skipped(
    ctx: BlackboxExporterContext,
    m: Map<Seq<char>, Seq<char>>,
)
    requires
        ctx.wf(),
        ctx.optional_labels.region matches Some(v) && v@.len() == 0,
        !m.contains_key("region"@),
        forall|j: int|
            0 <= j < ctx.optional_labels.custom.pairs().len() ==> (
            #[trigger] ctx.optional_labels.custom.pairs()[j]).0 != "region"@,
    ensures
        !ctx.spec_enrich(m).contains_key("region"@),
{
    lemma_label_key_facts();
    let ps = ctx.optional_labels.custom.pairs();
    let rg = "region"@;
    let labels = ctx.optional_labels;
    let m1 = spec_tag_applied(m, "target"@, ctx.target@);
    lemma_exported_prefix("target"@);
    lemma_tag_applied_frame(m, "target"@, ctx.target@, rg);
    let m2 = spec_tag_applied(m1, "module"@, ctx.module@);
    lemma_exported_prefix("module"@);
    lemma_tag_applied_frame(m1, "module"@, ctx.module@, rg);
    let m3 = spec_opt_label_applied(m2, "geohash"@, crate::enrich::spec_opt_view(labels.geohash));
    lemma_exported_prefix("geohash"@);
    lemma_opt_label_frame(m2, "geohash"@, crate::enrich::spec_opt_view(labels.geohash), rg);
    let m4 = spec_opt_label_applied(m3, rg, crate::enrich::spec_opt_view(labels.region));
    assert(m4 == m3);
    let m5 = spec_opt_label_applied(m4, "location"@, crate::enrich::spec_opt_view(labels.location));
    lemma_exported_prefix("location"@);
    lemma_opt_label_frame(m4, "location"@, crate::enrich::spec_opt_view(labels.location), rg);
    let m6 = spec_opt_label_applied(m5, "country"@, crate::enrich::spec_opt_view(labels.country));
    lemma_exported_prefix("country"@);
    lemma_opt_label_frame(m5, "country"@, crate::enrich::spec_opt_view(labels.country), rg);
    let m7 = spec_opt_label_applied(m6, "name"@, crate::enrich::spec_opt_view(labels.name));
    lemma_exported_prefix("name"@);
    lemma_opt_label_frame(m6, "name"@, crate::enrich::spec_opt_view(labels.name), rg);
    let m8 = spec_opt_label_applied(m7, "provider"@, crate::enrich::spec_opt_view(labels.provider));
    lemma_exported_prefix("provider"@);
    lemma_opt_label_frame(m7, "provider"@, crate::enrich::spec_opt_view(labels.provider), rg);
    assert forall|j: int|
        0 <= j < ps.len() implies (#[trigger] ps[j]).0 != rg && spec_exported_key(ps[j].0)
        != rg by {
        lemma_exported_prefix(ps[j].0);
    }
    lemma_custom_applied_frame(m8, ps, rg);
}

/// Enrichment always sets the target and module tags to the context's
/// values, whatever the measurement held, provided no ad-hoc label is named
/// `target` or `module`.
pub proof fn lemma_enrich_sets_target_and_module(
    ctx: BlackboxExporterContext,
    m: Map<Seq<char>, Seq<char>>,
)
    requires
        ctx.wf(),
        forall|j: int|
            0 <= j < ctx.optional_labels.custom.pairs().len() ==> (
            #[trigger] ctx.optional_labels.custom.pairs()[j]).0 != "target"@
                && ctx.optional_labels.custom.pairs()[j].0 != "module"@,
    ensures
        ctx.spec_enrich(m).contains_key("target"@),
        ctx.spec_enrich(m)["target"@] == ctx.target@,
        ctx.spec_enrich(m).contains_key("module"@),
        ctx.spec_enrich(m)["module"@] == ctx.module@,
{
    lemma_label_key_facts();
    let ps = ctx.optional_labels.custom.pairs();
    let tgt = "target"@;
    let md = "module"@;
    let labels = ctx.optional_labels;
    let m1 = spec_tag_applied(m, tgt, ctx.target@);
    assert(m1.contains_key(tgt) && m1[tgt] == ctx.target@);
    let m2 = spec_tag_applied(m1, md, ctx.module@);
    lemma_exported_prefix(md);
    lemma_tag_applied_frame(m1, md, ctx.module@, tgt);
    assert(m2.contains_key(md) && m2[md] == ctx.module@);
    let m3 = spec_opt_label_applied(m2, "geohash"@, crate::enrich::spec_opt_view(labels.geohash));
    lemma_exported_prefix("geohash"@);
    lemma_opt_label_frame(m2, "geohash"@, crate::enrich::spec_opt_view(labels.geohash), tgt);
    lemma_opt_label_frame(m2, "geohash"@, crate::enrich::spec_opt_view(labels.geohash), md);
    let m4 = spec_opt_label_applied(m3, "region"@, crate::enrich::spec_opt_view(labels.region));
    lemma_exported_prefix("region"@);
    lemma_opt_label_frame(m3, "region"@, crate::enrich::spec_opt_view(labels.region), tgt);
    lemma_opt_label_frame(m3, "region"@, crate::enrich::spec_opt_view(labels.region), md);
    let m5 = spec_opt_label_applied(m4, "location"@, crate::enrich::spec_opt_view(labels.location));
    lemma_exported_prefix("location"@);
    lemma_opt_label_frame(m4, "location"@, crate::enrich::spec_opt_view(labels.location), tgt);
    lemma_opt_label_frame(m4, "location"@, crate::enrich::spec_opt_view(labels.location), md);
    let m6 = spec_opt_label_applied(m5, "country"@, crate::enrich::spec_opt_view(labels.country));
    lemma_exported_prefix("country"@);
    lemma_opt_label_frame(m5, "country"@, crate::enrich::spec_opt_view(labels.country), tgt);
    lemma_opt_label_frame(m5, "country"@, crate::enrich::spec_opt_view(labels.country), md);
    let m7 = spec_opt_label_applied(m6, "name"@, crate::enrich::spec_opt_view(labels.name));
    lemma_exported_prefix("name"@);
    lemma_opt_label_frame(m6, "name"@, crate::enrich::spec_opt_view(labels.name), tgt);
    lemma_opt_label_frame(m6, "name"@, crate::enrich::spec_opt_view(labels.name), md);
    let m8 = spec_opt_label_applied(m7, "provider"@, crate::enrich::spec_opt_view(labels.provider));
    lemma_exported_prefix("provider"@);
    lemma_opt_label_frame(m7, "provider"@, crate::enrich::spec_opt_view(labels.provider), tgt);
    lemma_opt_label_frame(m7, "provider"@, crate::enrich::spec_opt_view(labels.provider), md);
    assert forall|j: int|
        0 <= j < ps.len() implies (#[trigger] ps[j]).0 != tgt && spec_exported_key(ps[j].0)
        != tgt by {
        lemma_exported_prefix(ps[j].0);
    }
    lemma_custom_applied_frame(m8, ps, tgt);
    assert forall|j: int|
        0 <= j < ps.len() implies (#[trigger] ps[j]).0 != md && spec_exported_key(ps[j].0)
        != md by {
        lemma_exported_prefix(ps[j].0);
    }
    lemma_custom_applied_frame(m8, ps, md);
}

/// Enrichment touches nothing else: a tag whose key is not `target`,
/// `module`, a predefined label key or an ad-hoc label key, and does not
/// start with `exported_`, is exactly as it was, and such a key is never
/// added.
pub proof fn lemma_enrich_preserves_unrelated_tags(
    ctx: BlackboxExporterContext,
    m: Map<Seq<char>, Seq<char>>,
    k: Seq<char>,
)
    requires
        ctx.wf(),
        k != "target"@,
        k != "module"@,
        k != "geohash"@,
        k != "region"@,
        k != "location"@,
        k != "country"@,
        k != "name"@,
        k != "provider"@,
        !spec_has_prefix(k, "exported_"@),
        forall|j: int|
            0 <= j < ctx.optional_labels.custom.pairs().len() ==> (
            #[trigger] ctx.optional_labels.custom.pairs()[j]).0 != k,
    ensures
        ctx.spec_enrich(m).contains_key(k) == m.contains_key(k),
        m.contains_key(k) ==> ctx.spec_enrich(m)[k] == m[k],
{
    let ps = ctx.optional_labels.custom.pairs();
    let labels = ctx.optional_labels;
    assert forall|x: Seq<char>| true implies spec_exported_key(x) != k by {
        if spec_exported_key(x) == k {
            lemma_exported_prefix(x);
        }
    }
    let m1 = spec_tag_applied(m, "target"@, ctx.target@);
    lemma_tag_applied_frame(m, "target"@, ctx.target@, k);
    let m2 = spec_tag_applied(m1, "module"@, ctx.module@);
    lemma_tag_applied_frame(m1, "module"@, ctx.module@, k);
    let m3 = spec_opt_label_applied(m2, "geohash"@, crate::enrich::spec_opt_view(labels.geohash));
    lemma_opt_label_frame(m2, "geohash"@, crate::enrich::spec_opt_view(labels.geohash), k);
    let m4 = spec_opt_label_applied(m3, "region"@, crate::enrich::spec_opt_view(labels.region));
    lemma_opt_label_frame(m3, "region"@, crate::enrich::spec_opt_view(labels.region), k);
    let m5 = spec_opt_label_applied(m4, "location"@, crate::enrich::spec_opt_view(labels.location));
    lemma_opt_label_frame(m4, "location"@, crate::enrich::spec_opt_view(labels.location), k);
    let m6 = spec_opt_label_applied(m5, "country"@, crate::enrich::spec_opt_view(labels.country));
    lemma_opt_label_frame(m5, "country"@, crate::enrich::spec_opt_view(labels.country), k);
    let m7 = spec_opt_label_applied(m6, "name"@, crate::enrich::spec_opt_view(labels.name));
    lemma_opt_label_frame(m6, "name"@, crate::enrich::spec_opt_view(labels.name), k);
    let m8 = spec_opt_label_applied(m7, "provider"@, crate::enrich::spec_opt_view(labels.provider));
    lemma_opt_label_frame(m7, "provider"@, crate::enrich::spec_opt_view(labels.provider), k);
    lemma_custom_applied_frame(m8, ps, k);
}

/// Ad-hoc labels win: after enrichment every ad-hoc label with a non-empty
/// value stands under its key, whatever the measurement's tags and the
/// predefined labels held, provided the key does not itself start with
/// `exported_`.
pub proof fn lemma_adhoc_label_wins(
    ctx: BlackboxExporterContext,
    m: Map<Seq<char>, Seq<char>>,
    i: int,
)
    requires
        ctx.wf(),
        0 <= i < ctx.optional_labels.custom.pairs().len(),
        ctx.optional_labels.custom.pairs()[i].1.len() > 0,
        !spec_has_prefix(ctx.optional_labels.custom.pairs()[i].0, "exported_"@),
    ensures
        ctx.spec_enrich(m).contains_key(ctx.optional_labels.custom.pairs()[i].0),
        ctx.spec_enrich(m)[ctx.optional_labels.custom.pairs()[i].0]
            == ctx.optional_labels.custom.pairs()[i].1,
{
    let ps = ctx.optional_labels.custom.pairs();
    assert forall|j: int|
        0 <= j < ps.len() implies spec_exported_key((#[trigger] ps[j]).0) != ps[i].0 by {
        if spec_exported_key(ps[j].0) == ps[i].0 {
            lemma_exported_prefix(ps[j].0);
        }
    }
    let labels = ctx.optional_labels;
    let m1 = spec_tag_applied(m, "target"@, ctx.target@);
    let m2 = spec_tag_applied(m1, "module"@, ctx.module@);
    let m3 = spec_opt_label_applied(m2, "geohash"@, crate::enrich::spec_opt_view(labels.geohash));
    let m4 = spec_opt_label_applied(m3, "region"@, crate::enrich::spec_opt_view(labels.region));
    let m5 = spec_opt_label_applied(m4, "location"@, crate::enrich::spec_opt_view(labels.location));
    let m6 = spec_opt_label_applied(m5, "country"@, crate::enrich::spec_opt_view(labels.country));
    let m7 = spec_opt_label_applied(m6, "name"@, crate::enrich::spec_opt_view(labels.name));
    let m8 = spec_opt_label_applied(m7, "provider"@, crate::enrich::spec_opt_view(labels.provider));
    lemma_custom_applied_wins(m8, ps, i);
}

} // verus!
