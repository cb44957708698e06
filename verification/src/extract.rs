//! The extraction pipeline: from a parsed timeline document to the ordered
//! list of mutual-follower records.
//!
//! The pipeline follows the document's shape: the instructions array sits at
//! a fixed path; every array-valued field of an instruction is a bucket of
//! candidate entries (an entry is any object with an `entryId` key); entries
//! of type `TimelineTimelineItem` carry a user record under a second fixed
//! path; a record is kept only when both follow flags are set.

use vstd::prelude::*;
use crate::json::{
    Json, JsonV, descend, get_field, lemma_model_fields_props, lemma_model_items_props,
    lookup_fields, step,
};
use crate::text::{remove_first, remove_first_str, str_eq};
use crate::user::{MutualUser, MutualUserV, users_model};

verus! {

/// The instructions array of a timeline document sits at this fixed path.
pub open spec fn instructions_of(doc: JsonV) -> Option<JsonV> {
    step(
        step(step(step(step(get_field(doc, "data"@), "user"@), "result"@), "timeline"@), "timeline"@),
        "instructions"@,
    )
}

/// An entry is any object that has an `entryId` key.
pub open spec fn is_entry(v: JsonV) -> bool {
    get_field(v, "entryId"@) is Some
}

/// The entries among the elements of one array-valued field, in order.
pub open spec fn entries_of_array(items: Seq<JsonV>) -> Seq<JsonV>
    decreases items.len(),
{
    if items.len() == 0 {
        Seq::empty()
    } else {
        entries_of_array(items.drop_last()) + (if is_entry(items.last()) {
            seq![items.last()]
        } else {
            Seq::empty()
        })
    }
}

/// The entries a field's value contributes: those of an array value, and
/// none from a value of any other kind.
pub open spec fn entries_of_value(v: JsonV) -> Seq<JsonV> {
    match v {
        JsonV::Arr(items) => entries_of_array(items),
        _ => Seq::empty(),
    }
}

/// The entries contributed by an instruction object's fields, in field
/// order.
pub open spec fn entries_of_fields(fields: Seq<(Seq<char>, JsonV)>) -> Seq<JsonV>
    decreases fields.len(),
{
    if fields.len() == 0 {
        Seq::empty()
    } else {
        entries_of_fields(fields.drop_last()) + entries_of_value(fields.last().1)
    }
}

/// The entries of one instruction: every array-valued field of an
/// instruction object is a bucket of candidates; a non-object instruction
/// contributes none.
pub open spec fn entries_of_instruction(ins: JsonV) -> Seq<JsonV> {
    match ins {
        JsonV::Obj(fields) => entries_of_fields(fields),
        _ => Seq::empty(),
    }
}

/// All entries of the instructions array, in instruction order.
pub open spec fn entries_of_instructions(instrs: Seq<JsonV>) -> Seq<JsonV>
    decreases instrs.len(),
{
    if instrs.len() == 0 {
        Seq::empty()
    } else {
        entries_of_instructions(instrs.drop_last()) + entries_of_instruction(instrs.last())
    }
}

/// An entry renders a user profile item exactly when its type field says
/// so.
pub open spec fn is_timeline_item(e: JsonV) -> bool {
    step(get_field(e, "content"@), "entryType"@) == Some(JsonV::Str("TimelineTimelineItem"@))
}

/// The user's flat attribute object sits under this fixed path of an
/// entry.
pub open spec fn legacy_of(e: JsonV) -> Option<JsonV> {
    step(
        step(step(step(get_field(e, "content"@), "itemContent"@), "user_results"@), "result"@),
        "legacy"@,
    )
}

/// The string a field holds, and the empty string for an absent or
/// non-string field.
pub open spec fn str_or_empty(o: Option<JsonV>) -> Seq<char> {
    match o {
        Some(JsonV::Str(s)) => s,
        _ => Seq::empty(),
    }
}

/// The boolean a field holds, and `false` for an absent or non-boolean
/// field.
pub open spec fn bool_or_false(o: Option<JsonV>) -> bool {
    match o {
        Some(JsonV::Bool(b)) => b,
        _ => false,
    }
}

/// The record an entry yields: one mutual-follower record when the user
/// object is reachable and both follow flags are set, nothing otherwise.
pub open spec fn user_of_entry(e: JsonV) -> Option<MutualUserV> {
    match legacy_of(e) {
        Some(JsonV::Obj(fields)) => {
            if bool_or_false(lookup_fields(fields, "followed_by"@)) && bool_or_false(
                lookup_fields(fields, "following"@),
            ) {
                Some(
                    MutualUserV {
                        username: str_or_empty(lookup_fields(fields, "screen_name"@)),
                        profile_image_url: remove_first(
                            str_or_empty(lookup_fields(fields, "profile_image_url_https"@)),
                            "_normal"@,
                        ),
                    },
                )
            } else {
                None
            }
        },
        _ => None,
    }
}

/// What one entry contributes to the result list.
pub open spec fn mutual_of_entry(e: JsonV) -> Seq<MutualUserV> {
    if is_timeline_item(e) {
        match user_of_entry(e) {
            Some(u) => seq![u],
            None => Seq::empty(),
        }
    } else {
        Seq::empty()
    }
}

/// The records of a list of entries, in entry order.
pub open spec fn mutuals_of_entries(entries: Seq<JsonV>) -> Seq<MutualUserV>
    decreases entries.len(),
{
    if entries.len() == 0 {
        Seq::empty()
    } else {
        mutuals_of_entries(entries.drop_last()) + mutual_of_entry(entries.last())
    }
}

/// The records of a whole document: a missing or non-array instructions
/// path yields no records, never an error.
pub open spec fn mutuals_of(doc: JsonV) -> Seq<MutualUserV> {
    match instructions_of(doc) {
        Some(JsonV::Arr(instrs)) => mutuals_of_entries(entries_of_instructions(instrs)),
        _ => Seq::empty(),
    }
}

/// An entry whose user record lacks `followed_by` or `following` — set to
/// `false`, absent, or not a boolean — yields no record, whatever else it
/// holds.
pub proof fn lemma_non_mutual_yields_none(e: JsonV)
    requires
        !(bool_or_false(step(legacy_of(e), "followed_by"@)) && bool_or_false(
            step(legacy_of(e), "following"@),
        )),
    ensures
        user_of_entry(e) is None,
{
}

/// Extraction is stable: the records drawn from a document are a function
/// of the document alone, so two extractions from the same document agree,
/// record for record and in order.
pub proof fn lemma_extraction_stable(doc: JsonV, r1: Seq<MutualUserV>, r2: Seq<MutualUserV>)
    requires
        r1 == mutuals_of(doc),
        r2 == mutuals_of(doc),
    ensures
        r1 == r2,
{
}

/// The boolean a field of `j` holds, with `false` for anything else.
fn get_bool_or_false(j: &Json, key: &str) -> (r: bool)
    ensures
        r == bool_or_false(get_field(j@, key@)),
{
    match j.get(key) {
        Some(v) => match v {
            Json::Bool(b) => *b,
            _ => false,
        },
        None => false,
    }
}

/// The string a field of `j` holds, with the empty string for anything
/// else.
fn get_str_or_empty(j: &Json, key: &str) -> (r: String)
    ensures
        r@ == str_or_empty(get_field(j@, key@)),
{
    match j.get(key) {
        Some(v) => match v {
            Json::Str(s) => s.clone(),
            _ => String::new(),
        },
        None => String::new(),
    }
}

/// Whether `item` is an entry: an object with an `entryId` key.
fn is_entry_exec(item: &Json) -> (r: bool)
    ensures
        r == is_entry(item@),
{
    match item.get("entryId") {
        Some(_) => true,
        None => false,
    }
}

/// Whether `e` is an entry of type `TimelineTimelineItem`.
fn is_timeline_item_exec(e: &Json) -> (r: bool)
    ensures
        r == is_timeline_item(e@),
{
    match descend(e.get("content"), "entryType") {
        Some(v) => match v {
            Json::Str(s) => str_eq(s.as_str(), "TimelineTimelineItem"),
            _ => false,
        },
        None => false,
    }
}

/// Reads one entry: descends to the user's attribute object and builds the
/// record exactly when both follow flags are set, with the `_normal` token
/// stripped from the image URL.
pub fn extract_user_info(entry: &Json) -> (r: Option<MutualUser>)
    ensures
        match r {
            Some(u) => user_of_entry(entry@) == Some(u@),
            None => user_of_entry(entry@) is None,
        },
{
    let legacy = descend(
        descend(descend(descend(entry.get("content"), "itemContent"), "user_results"), "result"),
        "legacy",
    );
    match legacy {
        Some(j) => match j {
            Json::Obj(_) => {
                let followed_by = get_bool_or_false(j, "followed_by");
                let following = get_bool_or_false(j, "following");
                if followed_by && following {
                    let username = get_str_or_empty(j, "screen_name");
                    let url = get_str_or_empty(j, "profile_image_url_https");
                    let profile_image_url = remove_first_str(url.as_str(), "_normal");
                    Some(MutualUser { username, profile_image_url })
                } else {
                    None
                }
            },
            _ => None,
        },
        None => None,
    }
}

/// The model of a list of borrowed JSON values, in order.
pub open spec fn refs_model(s: Seq<&Json>) -> Seq<JsonV> {
    s.map_values(|j: &Json| j@)
}

/// Collects every entry of every array-valued field of every instruction,
/// in traversal order: instruction order, then field order, then array
/// order.
pub fn find_all_entries<'a>(instructions: &'a Vec<Json>) -> (r: Vec<&'a Json>)
    ensures
        refs_model(r@) == entries_of_instructions(Json::model_items(instructions@)),
{
    let ghost m = Json::model_items(instructions@);
    proof {
        lemma_model_items_props(instructions@);
        assert(m.take(0) =~= Seq::<JsonV>::empty());
        assert(refs_model(Seq::<&Json>::empty()) =~= Seq::<JsonV>::empty());
    }
    let mut out: Vec<&'a Json> = Vec::new();
    let n = instructions.len();
    let mut idx: usize = 0;
    while idx < n
        invariant
            idx <= n,
            n == instructions@.len(),
            m == Json::model_items(instructions@),
            m.len() == n,
            forall|i: int| 0 <= i < n ==> #[trigger] m[i] == instructions@[i].model(),
            refs_model(out@) == entries_of_instructions(m.take(idx as int)),
        decreases n - idx,
    {
        let ghost base = entries_of_instructions(m.take(idx as int));
        let ins = &instructions[idx];
        match ins {
            Json::Obj(fields) => {
                let ghost fm = Json::model_fields(fields@);
                proof {
                    lemma_model_fields_props(fields@);
                    assert(fm.take(0) =~= Seq::<(Seq<char>, JsonV)>::empty());
                    assert(base + entries_of_fields(fm.take(0)) =~= base);
                }
                let f_len = fields.len();
                let mut fidx: usize = 0;
                while fidx < f_len
                    invariant
                        fidx <= f_len,
                        f_len == fields@.len(),
                        fm == Json::model_fields(fields@),
                        fm.len() == f_len,
                        forall|i: int|
                            0 <= i < f_len ==> #[trigger] fm[i] == (
                            fields@[i].0@,
                            fields@[i].1.model(),
                            ),
                        refs_model(out@) == base + entries_of_fields(fm.take(fidx as int)),
                    decreases f_len - fidx,
                {
                    let ghost fbase = base + entries_of_fields(fm.take(fidx as int));
                    let value = &fields[fidx].1;
                    match value {
                        Json::Arr(items) => {
                            let ghost im = Json::model_items(items@);
                            proof {
                                lemma_model_items_props(items@);
                                assert(im.take(0) =~= Seq::<JsonV>::empty());
                                assert(fbase + entries_of_array(im.take(0)) =~= fbase);
                            }
                            let a_len = items.len();
                            let mut k: usize = 0;
                            while k < a_len
                                invariant
                                    k <= a_len,
                                    a_len == items@.len(),
                                    im == Json::model_items(items@),
                                    im.len() == a_len,
                                    forall|i: int|
                                        0 <= i < a_len ==> #[trigger] im[i]
                                            == items@[i].model(),
                                    refs_model(out@) == fbase + entries_of_array(
                                        im.take(k as int),
                                    ),
                                decreases a_len - k,
                            {
                                let item = &items[k];
                                let ghost prev = out@;
                                if is_entry_exec(item) {
                                    out.push(item);
                                }
                                proof {
                                    assert(im.take(k + 1).drop_last() =~= im.take(k as int));
                                    assert(im.take(k + 1).last() == im[k as int]);
                                    if is_entry(im[k as int]) {
                                        assert(refs_model(out@) =~= refs_model(prev).push(
                                            item@,
                                        ));
                                        assert(refs_model(out@) =~= fbase + entries_of_array(
                                            im.take(k + 1),
                                        ));
                                    } else {
                                        assert(entries_of_array(im.take(k + 1))
                                            =~= entries_of_array(im.take(k as int)));
                                    }
                                }
                                k += 1;
                            }
                            proof {
                                assert(im.take(a_len as int) =~= im);
                            }
                        },
                        _ => {
                            proof {
                                assert(entries_of_value(fm[fidx as int].1)
                                    =~= Seq::<JsonV>::empty());
                            }
                        },
                    }
                    proof {
                        assert(fm.take(fidx + 1).drop_last() =~= fm.take(fidx as int));
                        assert(fm.take(fidx + 1).last() == fm[fidx as int]);
                        assert(refs_model(out@) =~= base + entries_of_fields(fm.take(fidx + 1)));
                    }
                    fidx += 1;
                }
                proof {
                    assert(fm.take(f_len as int) =~= fm);
                }
            },
            _ => {
                proof {
                    assert(entries_of_instruction(m[idx as int]) =~= Seq::<JsonV>::empty());
                }
            },
        }
        proof {
            assert(m.take(idx + 1).drop_last() =~= m.take(idx as int));
            assert(m.take(idx + 1).last() == m[idx as int]);
            assert(refs_model(out@) =~= entries_of_instructions(m.take(idx + 1)));
        }
        idx += 1;
    }
    proof {
        assert(m.take(n as int) =~= m);
    }
    out
}

/// Extracts the mutual-follower records of one parsed document, in
/// traversal order. A missing or non-array instructions path yields an
/// empty list, never an error.
pub fn extract_mutuals(doc: &Json) -> (r: Vec<MutualUser>)
    ensures
        users_model(r@) == mutuals_of(doc@),
{
    proof {
        assert(users_model(Seq::<MutualUser>::empty()) =~= Seq::<MutualUserV>::empty());
    }
    let instructions = descend(
        descend(descend(descend(descend(doc.get("data"), "user"), "result"), "timeline"), "timeline"),
        "instructions",
    );
    match instructions {
        Some(j) => match j {
            Json::Arr(instrs) => {
                let entries = find_all_entries(instrs);
                let ghost es = entries_of_instructions(Json::model_items(instrs@));
                let mut out: Vec<MutualUser> = Vec::new();
                proof {
                    assert(es.take(0) =~= Seq::<JsonV>::empty());
                }
                let n = entries.len();
                let mut i: usize = 0;
                while i < n
                    invariant
                        i <= n,
                        n == entries@.len(),
                        refs_model(entries@) == es,
                        users_model(out@) == mutuals_of_entries(es.take(i as int)),
                    decreases n - i,
                {
                    let e = entries[i];
                    proof {
                        assert(es[i as int] == entries@[i as int]@);
                        assert(es.take(i + 1).drop_last() =~= es.take(i as int));
                        assert(es.take(i + 1).last() == es[i as int]);
                    }
                    let ghost prev = out@;
                    if is_timeline_item_exec(e) {
                        match extract_user_info(e) {
                            Some(u) => {
                                proof {
                                    assert(users_model(prev.push(u)) =~= users_model(prev).push(
                                        u@,
                                    ));
                                }
                                out.push(u);
                            },
                            None => {},
                        }
                    }
                    proof {
                        assert(users_model(out@) =~= mutuals_of_entries(es.take(i + 1)));
                    }
                    i += 1;
                }
                proof {
                    assert(es.take(n as int) =~= es);
                }
                out
            },
            _ => Vec::new(),
        },
        None => Vec::new(),
    }
}

/// The models of a list of per-file record lists.
pub open spec fn lists_model(lists: Seq<Vec<MutualUser>>) -> Seq<Seq<MutualUserV>> {
    lists.map_values(|l: Vec<MutualUser>| users_model(l@))
}

/// The concatenation of per-file record lists, in list order.
pub open spec fn flatten_lists(lists: Seq<Seq<MutualUserV>>) -> Seq<MutualUserV>
    decreases lists.len(),
{
    if lists.len() == 0 {
        Seq::empty()
    } else {
        flatten_lists(lists.drop_last()) + lists.last()
    }
}

/// Two inputs merge in order: the merged list is the first input's records
/// followed by the second's.
pub proof fn lemma_concat_two(a: Seq<MutualUserV>, b: Seq<MutualUserV>)
    ensures
        flatten_lists(seq![a, b]) == a + b,
{
    let two = seq![a, b];
    assert(two.drop_last() =~= seq![a]);
    assert(seq![a].drop_last() =~= Seq::<Seq<MutualUserV>>::empty());
    assert(flatten_lists(Seq::<Seq<MutualUserV>>::empty()) == Seq::<MutualUserV>::empty());
    assert(flatten_lists(seq![a]) == Seq::<MutualUserV>::empty() + a);
    assert(flatten_lists(two) == flatten_lists(seq![a]) + b);
    assert((Seq::<MutualUserV>::empty() + a) + b =~= a + b);
}

/// Concatenates the per-file record lists into the one list the downloads
/// run over, in input order.
pub fn concat_mutuals(lists: &Vec<Vec<MutualUser>>) -> (r: Vec<MutualUser>)
    ensures
        users_model(r@) == flatten_lists(lists_model(lists@)),
{
    let ghost lm = lists_model(lists@);
    let mut out: Vec<MutualUser> = Vec::new();
    proof {
        assert(lm.take(0) =~= Seq::<Seq<MutualUserV>>::empty());
        assert(users_model(out@) =~= Seq::<MutualUserV>::empty());
    }
    let n = lists.len();
    let mut i: usize = 0;
    while i < n
        invariant
            i <= n,
            n == lists@.len(),
            lm == lists_model(lists@),
            lm.len() == n,
            users_model(out@) == flatten_lists(lm.take(i as int)),
        decreases n - i,
    {
        let ghost base = flatten_lists(lm.take(i as int));
        let l = &lists[i];
        proof {
            assert(l@.take(0) =~= Seq::<MutualUser>::empty());
            assert(base + users_model(l@.take(0)) =~= base);
        }
        let l_len = l.len();
        let mut k: usize = 0;
        while k < l_len
            invariant
                k <= l_len,
                l_len == l@.len(),
                users_model(out@) == base + users_model(l@.take(k as int)),
            decreases l_len - k,
        {
            let u = MutualUser {
                username: l[k].username.clone(),
                profile_image_url: l[k].profile_image_url.clone(),
            };
            let ghost prev = out@;
            proof {
                assert(u@ == l@[k as int]@);
            }
            out.push(u);
            proof {
                assert(users_model(out@) =~= users_model(prev).push(l@[k as int]@));
                assert(users_model(l@.take(k + 1)) =~= users_model(l@.take(k as int)).push(
                    l@[k as int]@,
                ));
                assert(users_model(out@) =~= base + users_model(l@.take(k + 1)));
            }
            k += 1;
        }
        proof {
            assert(l@.take(l_len as int) =~= l@);
            assert(lm[i as int] == users_model(l@));
            assert(lm.take(i + 1).drop_last() =~= lm.take(i as int));
            assert(lm.take(i + 1).last() == lm[i as int]);
        }
        i += 1;
    }
    proof {
        assert(lm.take(n as int) =~= lm);
    }
    out
}

} // verus!
