//! What a joined query is written as, and what the metadata of a server is read
//! as.
use crate::app_wire::{
    array_member, bool_member, index_state, remote_index, remote_version, remote_versions,
    strings_in, text_member, u64_member,
};
use crate::error::ErrorView;
use crate::json::{law_lookup_with_member, member_in, JsonView, NumberView};
use crate::multi_query::{
    join_json, query_json, source_json, JoinView, MultiQueryView, SourceView, MULTI_QUERY_PROFILE,
};
use crate::sda_text::filter_text;
use vstd::prelude::*;

verus! {

proof fn lemma_join_names()
    ensures
        "type"@ != "left_alias"@,
        "type"@ != "left_field"@,
        "type"@ != "right_alias"@,
        "type"@ != "right_field"@,
        "left_alias"@ != "left_field"@,
        "left_alias"@ != "right_alias"@,
        "left_alias"@ != "right_field"@,
        "left_field"@ != "right_alias"@,
        "left_field"@ != "right_field"@,
        "right_alias"@ != "right_field"@,
{
    reveal_strlit("type");
    reveal_strlit("left_alias");
    reveal_strlit("left_field");
    reveal_strlit("right_alias");
    reveal_strlit("right_field");
    assert("type"@.len() == 4);
    assert("left_alias"@.len() == 10 && "left_alias"@[5] == 'a');
    assert("left_field"@.len() == 10 && "left_field"@[5] == 'f');
    assert("right_alias"@.len() == 11 && "right_alias"@[6] == 'a');
    assert("right_field"@.len() == 11 && "right_field"@[6] == 'f');
}

/// A join is written with each side under its own name.
pub proof fn law_join_is_written_side_by_side(j: JoinView, right_alias: Seq<char>)
    ensures
        member_in(join_json(j, right_alias), "type"@) == Some(JsonView::Text("inner"@)),
        member_in(join_json(j, right_alias), "left_alias"@) == Some(JsonView::Text(j.left_alias)),
        member_in(join_json(j, right_alias), "left_field"@) == Some(JsonView::Text(j.left_field)),
        member_in(join_json(j, right_alias), "right_alias"@) == Some(JsonView::Text(right_alias)),
        member_in(join_json(j, right_alias), "right_field"@) == Some(JsonView::Text(j.right_field)),
{
    broadcast use law_lookup_with_member;

    lemma_join_names();
}

/// A source is written with its collection, its alias, its filter and its
/// limit.
pub proof fn law_source_is_written_as_it_is(s: SourceView)
    ensures
        member_in(source_json(s), "collection"@) == Some(JsonView::Text(s.collection)),
        member_in(source_json(s), "alias"@) == Some(JsonView::Text(s.alias)),
        member_in(source_json(s), "filter_sda"@) == Some(JsonView::Text(filter_text(s.filter))),
        s.options.limit is None ==> member_in(source_json(s), "source_limit"@) == Some(
            JsonView::Null,
        ),
        s.options.limit is Some ==> member_in(source_json(s), "source_limit"@) == Some(
            JsonView::Number(NumberView::PosInt(s.options.limit->0 as u64)),
        ),
{
    broadcast use law_lookup_with_member;

    reveal_strlit("collection");
    reveal_strlit("alias");
    reveal_strlit("filter_sda");
    reveal_strlit("source_limit");
    assert("collection"@.len() == 10 && "collection"@[0] == 'c');
    assert("alias"@.len() == 5);
    assert("filter_sda"@.len() == 10 && "filter_sda"@[0] == 'f');
    assert("source_limit"@.len() == 12);
}

/// A query is written with its sources in order, and with each join under the
/// alias of the source that it joins: the one behind it. A valid query has one
/// source more than joins.
pub proof fn law_query_is_written_as_it_is(q: MultiQueryView)
    requires
        q.sources.len() == q.joins.len() + 1,
    ensures
        ({
            let j = query_json(q);
            let sources = member_in(j, "sources"@);
            let joins = member_in(j, "joins"@);
            &&& member_in(j, "profile"@) == Some(JsonView::Text(MULTI_QUERY_PROFILE@))
            &&& sources is Some && sources->0 is Array
            &&& sources->0->Array_0.len() == q.sources.len()
            &&& forall|i: int|
                0 <= i < q.sources.len() ==> #[trigger] sources->0->Array_0[i] == source_json(
                    q.sources[i],
                )
            &&& joins is Some && joins->0 is Array
            &&& joins->0->Array_0.len() == q.joins.len()
            &&& forall|i: int|
                0 <= i < q.joins.len() ==> #[trigger] joins->0->Array_0[i] == join_json(
                    q.joins[i],
                    q.sources[i + 1].alias,
                )
            &&& q.limit is None ==> member_in(j, "limit"@) == Some(JsonView::Null)
            &&& q.limit is Some ==> member_in(j, "limit"@) == Some(
                JsonView::Number(NumberView::PosInt(q.limit->0 as u64)),
            )
            &&& member_in(j, "include_keys"@) == Some(JsonView::Bool(q.include_keys))
        }),
{
    broadcast use law_lookup_with_member;

    reveal_strlit("profile");
    reveal_strlit("sources");
    reveal_strlit("joins");
    reveal_strlit("limit");
    reveal_strlit("include_keys");
    assert("profile"@.len() == 7 && "profile"@[0] == 'p');
    assert("sources"@.len() == 7 && "sources"@[0] == 's');
    assert("joins"@.len() == 5 && "joins"@[0] == 'j');
    assert("limit"@.len() == 5 && "limit"@[0] == 'l');
    assert("include_keys"@.len() == 12);
}

/// A version of a history is read member by member. Its kind is one of the two
/// that there are; without one, or with another, it is refused.
pub proof fn law_version_is_read_as_it_says(row: JsonView)
    ensures
        remote_version(row) is Ok <==> text_member(row, "kind"@) == Some("put"@) || text_member(
            row,
            "kind"@,
        ) == Some("delete"@),
        remote_version(row) matches Ok(v) ==> {
            &&& text_member(row, "kind"@) == Some(v.kind)
            &&& text_member(row, "event_id"@) is Some ==> text_member(row, "event_id"@) == Some(
                v.event_id,
            )
            &&& text_member(row, "item_id"@) is Some ==> text_member(row, "item_id"@) == Some(
                v.item_id,
            )
            &&& text_member(row, "segment_id"@) is Some ==> text_member(row, "segment_id"@) == Some(
                v.segment_id,
            )
            &&& v.json is Some <==> member_in(row, "json"@) is Some && member_in(row, "json"@)->0
                != JsonView::Null
            &&& v.json is Some ==> v.json == member_in(row, "json"@)
            &&& v.known_gap_before <==> bool_member(row, "known_gap_before"@) == Some(true)
        },
{
}

/// A history is read one for one, in its order, and refused where one of its
/// versions is.
pub proof fn law_history_is_read_one_for_one(rows: Seq<JsonView>)
    ensures
        remote_versions(rows) is Ok <==> forall|i: int|
            0 <= i < rows.len() ==> remote_version(#[trigger] rows[i]) is Ok,
        remote_versions(rows) is Ok ==> {
            let list = remote_versions(rows)->Ok_0;
            &&& list.len() == rows.len()
            &&& forall|i: int|
                0 <= i < rows.len() ==> remote_version(rows[i]) == Ok::<_, ErrorView>(
                    #[trigger] list[i],
                )
        },
    decreases rows.len(),
{
    if rows.len() > 0 {
        let shorter = rows.drop_last();
        let n = rows.len() - 1;
        law_history_is_read_one_for_one(shorter);
        assert(rows[n] == rows.last());
        if forall|i: int| 0 <= i < rows.len() ==> remote_version(#[trigger] rows[i]) is Ok {
            assert forall|i: int| 0 <= i < shorter.len() implies remote_version(
                #[trigger] shorter[i],
            ) is Ok by {
                assert(rows[i] == shorter[i]);
            }
        }
        if remote_versions(rows) is Ok {
            let earlier = remote_versions(shorter)->Ok_0;
            let list = remote_versions(rows)->Ok_0;
            assert forall|i: int| 0 <= i < rows.len() implies remote_version(rows[i]) == Ok::<
                _,
                ErrorView,
            >(#[trigger] list[i]) by {
                if i < n {
                    assert(list[i] == earlier[i]);
                    assert(shorter[i] == rows[i]);
                }
            }
            assert forall|i: int| 0 <= i < rows.len() implies remote_version(
                #[trigger] rows[i],
            ) is Ok by {
                if i < n {
                    assert(shorter[i] == rows[i]);
                }
            }
        }
    }
}

/// The metadata of an index is read member by member, and refused where it has
/// no name or a state that is not known.
pub proof fn law_index_is_read_as_it_says(row: JsonView, display: Seq<char>, known: bool)
    ensures
        remote_index(row, display, known) is Ok <==> known && text_member(row, "name"@) is Some,
        remote_index(row, display, known) matches Ok(info) ==> {
            &&& text_member(row, "name"@) == Some(info.name)
            &&& text_member(row, "collection"@) is Some ==> text_member(row, "collection"@) == Some(
                info.collection,
            )
            &&& text_member(row, "collection"@) is None ==> info.collection == display
            &&& array_member(row, "fields"@) is Some ==> info.fields == strings_in(
                array_member(row, "fields"@)->0,
            )
            &&& text_member(row, "state"@) is Some ==> text_member(row, "state"@) == Some(
                info.state,
            )
            &&& text_member(row, "state"@) is None ==> info.state == "ready"@
            &&& info.state == index_state(row)
            &&& u64_member(row, "entry_count"@) is Some ==> u64_member(row, "entry_count"@) == Some(
                info.entry_count,
            )
            &&& info.complete_coverage <==> bool_member(row, "complete_coverage"@) == Some(true)
        },
{
}

} // verus!
