//! The post index: the records of the posts, their order and the page that
//! lists them.

use vstd::prelude::*;

verus! {

/// What the index shows of one post.
pub struct PostRecord {
    /// The base name of the post's directory.
    pub name: String,
    pub title: String,
    pub description: String,
    /// Seconds since the Unix epoch.
    pub timestamp: i64,
    /// The timestamp as shown to a reader.
    pub timestamp_display: String,
}

/// `sorted` with `r` put in behind the last record that is not older than
/// `r`.
pub open spec fn insert_by_time(sorted: Seq<PostRecord>, r: PostRecord) -> Seq<PostRecord>
    decreases sorted.len(),
{
    if sorted.len() == 0 || sorted.last().timestamp >= r.timestamp {
        sorted.push(r)
    } else {
        insert_by_time(sorted.drop_last(), r).push(sorted.last())
    }
}

/// `records` ordered by timestamp, newest first; records with equal
/// timestamps keep the order in which they came.
pub open spec fn newest_first(records: Seq<PostRecord>) -> Seq<PostRecord>
    decreases records.len(),
{
    if records.len() == 0 {
        Seq::empty()
    } else {
        insert_by_time(newest_first(records.drop_last()), records.last())
    }
}

/// No record stands before a newer one.
pub open spec fn is_newest_first(records: Seq<PostRecord>) -> bool {
    forall|i: int, j: int|
        0 <= i < j < records.len() ==> records[i].timestamp >= records[j].timestamp
}

/// The test "has the timestamp `t`".
pub open spec fn at_time(t: i64) -> spec_fn(PostRecord) -> bool {
    |r: PostRecord| r.timestamp == t
}

proof fn lemma_insert_len(sorted: Seq<PostRecord>, r: PostRecord)
    ensures
        insert_by_time(sorted, r).len() == sorted.len() + 1,
    decreases sorted.len(),
{
    if !(sorted.len() == 0 || sorted.last().timestamp >= r.timestamp) {
        lemma_insert_len(sorted.drop_last(), r);
    }
}

proof fn lemma_insert_keeps_order(sorted: Seq<PostRecord>, r: PostRecord)
    requires
        is_newest_first(sorted),
    ensures
        is_newest_first(insert_by_time(sorted, r)),
        forall|k: int|
            0 <= k < insert_by_time(sorted, r).len() ==> (#[trigger] insert_by_time(
                sorted,
                r,
            )[k]).timestamp >= r.timestamp || (sorted.len() > 0 && insert_by_time(
                sorted,
                r,
            )[k].timestamp >= sorted.last().timestamp),
    decreases sorted.len(),
{
    lemma_insert_len(sorted, r);
    if !(sorted.len() == 0 || sorted.last().timestamp >= r.timestamp) {
        let rest = sorted.drop_last();
        lemma_insert_keeps_order(rest, r);
        lemma_insert_len(rest, r);
        let inner = insert_by_time(rest, r);
        let out = inner.push(sorted.last());
        assert forall|i: int, j: int| 0 <= i < j < out.len() implies out[i].timestamp
            >= out[j].timestamp by {
            if j == out.len() - 1 {
                assert(out[i] == inner[i]);
                if rest.len() > 0 && inner[i].timestamp >= rest.last().timestamp {
                    assert(rest.last() == sorted[sorted.len() - 2]);
                }
            } else {
                assert(out[i] == inner[i]);
                assert(out[j] == inner[j]);
            }
        }
    }
}

/// The order is by timestamp, newest first.
pub proof fn lemma_newest_first_is_ordered(records: Seq<PostRecord>)
    ensures
        is_newest_first(newest_first(records)),
        newest_first(records).len() == records.len(),
    decreases records.len(),
{
    if records.len() > 0 {
        lemma_newest_first_is_ordered(records.drop_last());
        lemma_insert_keeps_order(newest_first(records.drop_last()), records.last());
        lemma_insert_len(newest_first(records.drop_last()), records.last());
    }
}

proof fn lemma_filter_push(s: Seq<PostRecord>, r: PostRecord, t: i64)
    ensures
        s.push(r).filter(at_time(t)) == if r.timestamp == t {
            s.filter(at_time(t)).push(r)
        } else {
            s.filter(at_time(t))
        },
{
    reveal(Seq::filter);
    assert(s.push(r).drop_last() =~= s);
}

proof fn lemma_insert_filter(sorted: Seq<PostRecord>, r: PostRecord, t: i64)
    ensures
        insert_by_time(sorted, r).filter(at_time(t)) == sorted.push(r).filter(at_time(t)),
    decreases sorted.len(),
{
    if !(sorted.len() == 0 || sorted.last().timestamp >= r.timestamp) {
        let rest = sorted.drop_last();
        let last = sorted.last();
        lemma_insert_filter(rest, r, t);
        lemma_filter_push(insert_by_time(rest, r), last, t);
        lemma_filter_push(rest, r, t);
        lemma_filter_push(rest, last, t);
        lemma_filter_push(sorted, r, t);
        assert(rest.push(last) =~= sorted);
    }
}

/// The order is stable and loses nothing: for every timestamp, the records
/// that have it are the same before and after, in the same order.
pub proof fn lemma_newest_first_is_stable(records: Seq<PostRecord>, t: i64)
    ensures
        newest_first(records).filter(at_time(t)) == records.filter(at_time(t)),
    decreases records.len(),
{
    if records.len() > 0 {
        let rest = records.drop_last();
        lemma_newest_first_is_stable(rest, t);
        lemma_insert_filter(newest_first(rest), records.last(), t);
        lemma_filter_push(newest_first(rest), records.last(), t);
        lemma_filter_push(rest, records.last(), t);
        assert(rest.push(records.last()) =~= records);
    } else {
        assert(newest_first(records) =~= records);
    }
}

proof fn lemma_insert_adds_one(sorted: Seq<PostRecord>, r: PostRecord)
    ensures
        insert_by_time(sorted, r).to_multiset() == sorted.to_multiset().insert(r),
    decreases sorted.len(),
{
    if sorted.len() == 0 || sorted.last().timestamp >= r.timestamp {
        vstd::seq_lib::to_multiset_build(sorted, r);
    } else {
        let rest = sorted.drop_last();
        lemma_insert_adds_one(rest, r);
        vstd::seq_lib::to_multiset_build(insert_by_time(rest, r), sorted.last());
        vstd::seq_lib::to_multiset_build(rest, sorted.last());
        assert(rest.push(sorted.last()) =~= sorted);
        assert(rest.to_multiset().insert(r).insert(sorted.last()) =~= rest.to_multiset().insert(
            sorted.last(),
        ).insert(r));
    }
}

/// The order loses and adds nothing: it holds each record as often as the
/// records given.
pub proof fn lemma_newest_first_is_permutation(records: Seq<PostRecord>)
    ensures
        newest_first(records).to_multiset() == records.to_multiset(),
    decreases records.len(),
{
    if records.len() > 0 {
        let rest = records.drop_last();
        lemma_newest_first_is_permutation(rest);
        lemma_insert_adds_one(newest_first(rest), records.last());
        vstd::seq_lib::to_multiset_build(rest, records.last());
        assert(rest.push(records.last()) =~= records);
    } else {
        assert(records =~= Seq::empty());
    }
}

proof fn lemma_insert_at(sorted: Seq<PostRecord>, r: PostRecord, j: int)
    requires
        0 <= j <= sorted.len(),
        forall|k: int| j <= k < sorted.len() ==> sorted[k].timestamp < r.timestamp,
        j == 0 || sorted[j - 1].timestamp >= r.timestamp,
    ensures
        insert_by_time(sorted, r) == sorted.insert(j, r),
    decreases sorted.len() - j,
{
    if j == sorted.len() {
        assert(sorted.insert(j, r) =~= sorted.push(r));
    } else {
        let rest = sorted.drop_last();
        lemma_insert_at(rest, r, j);
        assert(rest.insert(j, r).push(sorted.last()) =~= sorted.insert(j, r));
    }
}

/// Orders `records` by timestamp, newest first; records with equal
/// timestamps keep the order in which they came.
pub fn sort_newest_first(records: &mut Vec<PostRecord>)
    ensures
        final(records)@ == newest_first(old(records)@),
{
    let ghost all = records@;
    let mut i: usize = 0;
    proof {
        assert(records@.take(0) =~= newest_first(all.take(0)));
    }
    while i < records.len()
        invariant
            i <= records@.len(),
            records@.len() == all.len(),
            records@.take(i as int) == newest_first(all.take(i as int)),
            records@.skip(i as int) == all.skip(i as int),
        decreases records@.len() - i,
    {
        let ghost before = records@;
        let ghost prefix = before.take(i as int);
        let r = records.remove(i);
        proof {
            assert(r == all.skip(i as int)[0]);
            assert(records@.take(i as int) =~= prefix);
            assert forall|k: int| 0 <= k < records@.len() - i implies records@.skip(i as int)[k]
                == all.skip(i + 1)[k] by {
                assert(before.skip(i as int)[k + 1] == all.skip(i as int)[k + 1]);
            }
            assert(records@.skip(i as int) =~= all.skip(i + 1));
        }
        let mut j: usize = i;
        while j > 0 && records[j - 1].timestamp < r.timestamp
            invariant
                j <= i <= records@.len(),
                records@.take(i as int) == prefix,
                forall|k: int| j <= k < i ==> prefix[k].timestamp < r.timestamp,
            decreases j,
        {
            proof {
                assert(prefix[j - 1] == records@[j - 1]);
            }
            j -= 1;
        }
        proof {
            if j > 0 {
                assert(prefix[j - 1] == records@[j - 1]);
            }
            lemma_insert_at(prefix, r, j as int);
            assert(all.take(i + 1).drop_last() =~= all.take(i as int));
        }
        let ghost removed = records@;
        records.insert(j, r);
        proof {
            assert(records@.take(i + 1) =~= prefix.insert(j as int, r));
            assert(records@.skip(i + 1) =~= removed.skip(i as int));
        }
        i += 1;
    }
    proof {
        assert(records@.take(records@.len() as int) =~= records@);
        assert(all.take(all.len() as int) =~= all);
    }
}

/// The list item that shows `r`.
pub open spec fn entry_html(r: PostRecord) -> Seq<char> {
    "<li><a href=\""@ + r.name@ + "/index.html\">"@ + r.title@ + "</a> - "@ + r.description@
        + " - "@ + r.timestamp_display@ + "</li>"@
}

/// The list items of `records`, in their order.
pub open spec fn entries_html(records: Seq<PostRecord>) -> Seq<char>
    decreases records.len(),
{
    if records.len() == 0 {
        Seq::empty()
    } else {
        entries_html(records.drop_last()) + entry_html(records.last())
    }
}

/// The page that lists `records` in their order.
pub open spec fn listing_html(records: Seq<PostRecord>) -> Seq<char> {
    "<html><head><title>Posts</title></head><body>"@ + "<h1>Posts</h1><ul>"@ + entries_html(
        records,
    ) + "</ul></body></html>"@
}

/// The index of a site with one post holds one list item, that of the post,
/// which links to the post's own page.
pub proof fn lemma_index_of_one_post(record: PostRecord)
    ensures
        newest_first(seq![record]) == seq![record],
        listing_html(newest_first(seq![record])) == "<html><head><title>Posts</title></head><body>"@
            + "<h1>Posts</h1><ul>"@ + entry_html(record) + "</ul></body></html>"@,
        entry_html(record) == "<li><a href=\""@ + record.name@ + "/index.html\">"@ + record.title@
            + "</a> - "@ + record.description@ + " - "@ + record.timestamp_display@ + "</li>"@,
{
    let one = seq![record];
    assert(one.drop_last() =~= Seq::<PostRecord>::empty());
    reveal_with_fuel(newest_first, 2);
    reveal_with_fuel(entries_html, 2);
    assert(newest_first(one) =~= one);
    assert(entries_html(one) =~= entry_html(record));
}

/// The page that lists `records` in the order in which they stand.
pub fn render_listing(records: &Vec<PostRecord>) -> (page: String)
    ensures
        page@ == listing_html(records@),
{
    let mut page = String::new();
    page.append("<html><head><title>Posts</title></head><body>");
    page.append("<h1>Posts</h1><ul>");
    let ghost head = page@;
    let mut i: usize = 0;
    while i < records.len()
        invariant
            i <= records@.len(),
            page@ == head + entries_html(records@.take(i as int)),
        decreases records@.len() - i,
    {
        let r = &records[i];
        proof {
            assert(records@.take(i + 1).drop_last() =~= records@.take(i as int));
        }
        page.append("<li><a href=\"");
        page.append(r.name.as_str());
        page.append("/index.html\">");
        page.append(r.title.as_str());
        page.append("</a> - ");
        page.append(r.description.as_str());
        page.append(" - ");
        page.append(r.timestamp_display.as_str());
        page.append("</li>");
        i += 1;
    }
    proof {
        assert(records@.take(records@.len() as int) =~= records@);
    }
    page.append("</ul></body></html>");
    page
}

/// The site's index page: one list item per record, linking to the post's
/// own page and showing its title, description and display timestamp, the
/// newest post first and posts of equal timestamp in the order given.
pub fn build_index(records: Vec<PostRecord>) -> (page: String)
    ensures
        page@ == listing_html(newest_first(records@)),
{
    let mut records = records;
    sort_newest_first(&mut records);
    render_listing(&records)
}

} // verus!
