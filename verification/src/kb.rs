//! The local knowledge base of code examples: naming the files a generated
//! example is saved under, and finding the examples most relevant to a goal
//! by counting the goal's words that occur in each example's name and
//! stored goal. Reading and writing the files is left to the program
//! around this library.
use vstd::prelude::*;
use crate::text::{
    chars_of, concat, contains_chars, decimal, has_infix, join_path, lowercase, owned, path_join,
    push_decimal, push_str, same_text, to_lowercase, views, words, words_of, string_of,
    char_views,
};

verus! {

/// An example found in the knowledge base directory.
pub struct KbCandidate {
    /// The file name without its extension.
    pub stem: String,
    /// The goal stored in the example's metadata, empty when there is none.
    pub meta_goal: String,
}

/// An example chosen for the context, with its content when it could be
/// read.
pub struct KbExample {
    pub name: String,
    pub ext: String,
    pub code: Option<String>,
}

/// Whether a file with this extension is an example (metadata files end
/// in `.json`; files without an extension are skipped).
pub open spec fn is_example_ext(ext: Option<Seq<char>>) -> bool {
    match ext {
        Some(e) => e != "json"@,
        None => false,
    }
}

/// Whether a file with this extension is an example.
pub fn is_example_file(ext: &Option<String>) -> (r: bool)
    ensures
        r == is_example_ext(
            match ext {
                Some(e) => Some(e@),
                None => None,
            },
        ),
{
    match ext {
        Some(e) => !same_text(e.as_str(), "json"),
        None => false,
    }
}

/// How many of the words count for the text (already in lowercase), given
/// each word's lowercase form in `lws`: a word counts when it is longer
/// than three bytes in UTF-8 and its lowercase form occurs in the text.
pub open spec fn hit_count(ws: Seq<Seq<char>>, lws: Seq<Seq<char>>, text: Seq<char>) -> nat
    decreases ws.len(),
{
    if ws.len() == 0 {
        0
    } else {
        hit_count(ws.drop_last(), lws.drop_last(), text) + if vstd::utf8::encode_utf8(
            ws.last(),
        ).len() > 3 && has_infix(text, lws.last()) {
            1nat
        } else {
            0nat
        }
    }
}

/// The lowercase form of each word.
pub open spec fn lowercases(ws: Seq<Seq<char>>) -> Seq<Seq<char>> {
    Seq::new(ws.len(), |i: int| lowercase(ws[i]))
}

/// How many of the words count for the text.
pub open spec fn match_count(ws: Seq<Seq<char>>, text: Seq<char>) -> nat {
    hit_count(ws, lowercases(ws), text)
}

/// The text a candidate is matched against: its stem and stored goal,
/// space separated, in lowercase.
pub open spec fn candidate_text(c: KbCandidate) -> Seq<char> {
    lowercase(c.stem@ + " "@ + c.meta_goal@)
}

/// The score of a candidate for a goal.
pub open spec fn score(goal: Seq<char>, c: KbCandidate) -> nat {
    match_count(words(goal), candidate_text(c))
}

/// The scores of all candidates.
pub open spec fn scores(goal: Seq<char>, cs: Seq<KbCandidate>) -> Seq<nat> {
    Seq::new(cs.len(), |i: int| score(goal, cs[i]))
}

/// Candidate `i` ranks before candidate `j`: a higher score, or the same
/// score and an earlier place in the directory listing.
pub open spec fn ranks_before(sc: Seq<nat>, i: int, j: int) -> bool {
    sc[i] > sc[j] || (sc[i] == sc[j] && i < j)
}

/// How many scores are positive.
pub open spec fn count_positive(sc: Seq<nat>) -> nat
    decreases sc.len(),
{
    if sc.len() == 0 {
        0
    } else {
        count_positive(sc.drop_last()) + if sc.last() > 0 {
            1nat
        } else {
            0nat
        }
    }
}

/// `r` lists the best `limit` candidates with a positive score, best
/// first: a stable sort by descending score, cut after `limit`.
pub open spec fn is_ranking(sc: Seq<nat>, limit: nat, r: Seq<usize>) -> bool {
    &&& r.len() == (if limit < count_positive(sc) {
        limit
    } else {
        count_positive(sc)
    })
    &&& forall|k: int| 0 <= k < r.len() ==> #[trigger] r[k] < sc.len() && sc[r[k] as int] > 0
    &&& forall|a: int, b: int|
        0 <= a < b < r.len() ==> ranks_before(sc, #[trigger] r[a] as int, #[trigger] r[b] as int)
    &&& forall|i: int|
        0 <= i < sc.len() && sc[i] > 0 && !r.contains(i as usize) ==> forall|k: int|
            0 <= k < r.len() ==> ranks_before(sc, #[trigger] r[k] as int, i)
}

proof fn lemma_ranking_prefix(sc: Seq<nat>, limit: nat, r1: Seq<usize>, r2: Seq<usize>, k: int)
    requires
        is_ranking(sc, limit, r1),
        is_ranking(sc, limit, r2),
        0 <= k <= r1.len(),
    ensures
        forall|j: int| 0 <= j < k ==> r1[j] == r2[j],
    decreases k,
{
    if k > 0 {
        lemma_ranking_prefix(sc, limit, r1, r2, k - 1);
        let x = r1[k - 1];
        let y = r2[k - 1];
        if x != y {
            assert(ranks_before(sc, y as int, x as int)) by {
                if r2.contains(x) {
                    let m = choose|m: int| 0 <= m < r2.len() && r2[m] == x;
                    if m < k - 1 {
                        assert(r1[m] == x);
                        assert(ranks_before(sc, r1[m] as int, r1[k - 1] as int));
                    }
                    assert(m != k - 1);
                    assert(ranks_before(sc, r2[k - 1] as int, r2[m] as int));
                } else {
                    assert(sc[x as int] > 0);
                }
            }
            assert(ranks_before(sc, x as int, y as int)) by {
                if r1.contains(y) {
                    let m = choose|m: int| 0 <= m < r1.len() && r1[m] == y;
                    if m < k - 1 {
                        assert(r2[m] == y);
                        assert(ranks_before(sc, r2[m] as int, r2[k - 1] as int));
                    }
                    assert(m != k - 1);
                    assert(ranks_before(sc, r1[k - 1] as int, r1[m] as int));
                } else {
                    assert(sc[y as int] > 0);
                }
            }
        }
    }
}

/// The ranking contract determines the result: two lists that both rank
/// the same scores with the same limit are equal.
pub proof fn lemma_ranking_unique(sc: Seq<nat>, limit: nat, r1: Seq<usize>, r2: Seq<usize>)
    requires
        is_ranking(sc, limit, r1),
        is_ranking(sc, limit, r2),
    ensures
        r1 == r2,
{
    lemma_ranking_prefix(sc, limit, r1, r2, r1.len() as int);
    assert(r1 =~= r2);
}

proof fn lemma_hit_positive(ws: Seq<Seq<char>>, lws: Seq<Seq<char>>, text: Seq<char>, i: int)
    requires
        0 <= i < ws.len(),
        lws.len() == ws.len(),
        vstd::utf8::encode_utf8(ws[i]).len() > 3,
        has_infix(text, lws[i]),
    ensures
        hit_count(ws, lws, text) > 0,
    decreases ws.len(),
{
    if i < ws.len() - 1 {
        assert(ws.drop_last()[i] == ws[i]);
        assert(lws.drop_last()[i] == lws[i]);
        lemma_hit_positive(ws.drop_last(), lws.drop_last(), text, i);
    }
}

/// A saved example is found again: when the knowledge base holds one
/// example, and a word of the goal longer than three bytes occurs, in
/// lowercase, in the example's lowercased name and stored goal, a search
/// with a limit of at least one returns exactly that example.
pub proof fn lemma_single_example_found(goal: Seq<char>, c: KbCandidate, limit: nat, r: Seq<usize>)
    requires
        limit >= 1,
        exists|i: int|
            0 <= i < words(goal).len() && vstd::utf8::encode_utf8(words(goal)[i]).len() > 3
                && has_infix(candidate_text(c), lowercase(#[trigger] words(goal)[i])),
        is_ranking(scores(goal, seq![c]), limit, r),
    ensures
        r == seq![0usize],
{
    let ws = words(goal);
    let i = choose|i: int|
        0 <= i < ws.len() && vstd::utf8::encode_utf8(ws[i]).len() > 3 && has_infix(
            candidate_text(c),
            lowercase(#[trigger] ws[i]),
        );
    assert(lowercases(ws)[i] == lowercase(ws[i]));
    lemma_hit_positive(ws, lowercases(ws), candidate_text(c), i);
    let sc = scores(goal, seq![c]);
    assert(sc[0] > 0);
    assert(sc.len() == 1);
    assert(sc.drop_last() =~= Seq::<nat>::empty());
    assert(count_positive(sc.drop_last()) == 0);
    assert(sc.last() == sc[0]);
    assert(count_positive(sc) == 1);
    assert(r.len() == 1);
    assert(r[0] < 1);
    assert(r =~= seq![0usize]);
}

/// The words of a goal.
pub fn goal_words(goal: &str) -> (r: Vec<String>)
    ensures
        views(r@) == words(goal@),
{
    let v = chars_of(goal);
    let ws = words_of(&v);
    let mut r: Vec<String> = Vec::new();
    let mut i: usize = 0;
    while i < ws.len()
        invariant
            i <= ws.len(),
            views(r@) == char_views(ws@).take(i as int),
        decreases ws.len() - i,
    {
        let ghost before = views(r@);
        r.push(string_of(&ws[i]));
        assert(views(r@) =~= before.push(ws@[i as int]@));
        assert(char_views(ws@).take(i + 1) =~= char_views(ws@).take(i as int).push(ws@[i as int]@));
        i = i + 1;
    }
    assert(char_views(ws@).take(i as int) =~= char_views(ws@));
    r
}

/// How many of the words `ws` count for `text`, given their lowercase
/// forms `lws` and a text already in lowercase.
pub fn count_hits(ws: &Vec<String>, lws: &Vec<String>, text: &str) -> (r: usize)
    requires
        lws.len() == ws.len(),
    ensures
        r == hit_count(views(ws@), views(lws@), text@),
{
    let tv = chars_of(text);
    let ghost all = views(ws@);
    let ghost low = views(lws@);
    let mut n: usize = 0;
    let mut i: usize = 0;
    while i < ws.len()
        invariant
            i <= ws.len(),
            lws.len() == ws.len(),
            all == views(ws@),
            low == views(lws@),
            tv@ == text@,
            n == hit_count(all.take(i as int), low.take(i as int), text@),
            n <= i,
        decreases ws.len() - i,
    {
        assert(all.take(i + 1).drop_last() =~= all.take(i as int));
        assert(low.take(i + 1).drop_last() =~= low.take(i as int));
        assert(all.take(i + 1).last() == ws@[i as int]@);
        assert(low.take(i + 1).last() == lws@[i as int]@);
        let long = ws[i].as_str().as_bytes().len() > 3;
        if long && contains_chars(&tv, &chars_of(lws[i].as_str())) {
            n = n + 1;
        }
        i = i + 1;
    }
    assert(all.take(i as int) =~= all);
    assert(low.take(i as int) =~= low);
    n
}

/// The score of one candidate.
pub fn match_score(ws: &Vec<String>, c: &KbCandidate) -> (r: usize)
    ensures
        r == match_count(views(ws@), candidate_text(*c)),
{
    let mut joined = owned(c.stem.as_str());
    push_str(&mut joined, " ");
    push_str(&mut joined, c.meta_goal.as_str());
    let text = to_lowercase(joined.as_str());
    let ghost all = views(ws@);
    let mut lws: Vec<String> = Vec::new();
    let mut i: usize = 0;
    while i < ws.len()
        invariant
            i <= ws.len(),
            all == views(ws@),
            lws@.len() == i,
            forall|j: int| 0 <= j < i ==> #[trigger] lws@[j]@ == lowercase(all[j]),
        decreases ws.len() - i,
    {
        lws.push(to_lowercase(ws[i].as_str()));
        i = i + 1;
    }
    assert(views(lws@) =~= lowercases(all));
    count_hits(ws, &lws, text.as_str())
}

proof fn lemma_count_positive_step(sc: Seq<nat>, i: int)
    requires
        0 <= i < sc.len(),
    ensures
        count_positive(sc.take(i + 1)) == count_positive(sc.take(i)) + if sc[i] > 0 {
            1nat
        } else {
            0nat
        },
{
    assert(sc.take(i + 1).drop_last() =~= sc.take(i));
}

/// The scores as natural numbers.
pub open spec fn nat_scores(sv: Seq<usize>) -> Seq<nat> {
    Seq::new(sv.len(), |i: int| sv[i] as nat)
}

/// The best `limit` candidates for `goal`, best first; only candidates
/// with at least one matching word take part.
pub fn rank_candidates(goal: &str, cs: &Vec<KbCandidate>, limit: usize) -> (r: Vec<usize>)
    ensures
        is_ranking(scores(goal@, cs@), limit as nat, r@),
{
    let ws = goal_words(goal);
    let ghost sc = scores(goal@, cs@);
    let mut sv: Vec<usize> = Vec::new();
    let mut i: usize = 0;
    while i < cs.len()
        invariant
            i <= cs.len(),
            sc == scores(goal@, cs@),
            views(ws@) == words(goal@),
            sv@.len() == i,
            forall|j: int| 0 <= j < i ==> sv@[j] == sc[j],
        decreases cs.len() - i,
    {
        sv.push(match_score(&ws, &cs[i]));
        i = i + 1;
    }
    assert(nat_scores(sv@) =~= sc);
    rank_by_score(&sv, limit)
}

/// The indices of the best `limit` positive scores, best first, ties in
/// the order of the scores.
pub fn rank_by_score(sv: &Vec<usize>, limit: usize) -> (r: Vec<usize>)
    ensures
        is_ranking(nat_scores(sv@), limit as nat, r@),
{
    let ghost sc = nat_scores(sv@);
    let mut order: Vec<usize> = Vec::new();
    let mut i: usize = 0;
    while i < sv.len()
        invariant
            i <= sv.len(),
            sc.len() == sv.len(),
            sc == nat_scores(sv@),
            forall|j: int| 0 <= j < sv.len() ==> sv@[j] == sc[j],
            order@.len() == count_positive(sc.take(i as int)),
            forall|k: int| 0 <= k < order@.len() ==> #[trigger] order@[k] < i && sc[order@[k] as int] > 0,
            forall|a: int, b: int|
                0 <= a < b < order@.len() ==> ranks_before(
                    sc,
                    #[trigger] order@[a] as int,
                    #[trigger] order@[b] as int,
                ),
            forall|j: int| 0 <= j < i && sc[j] > 0 ==> order@.contains(j as usize),
        decreases sv.len() - i,
    {
        proof {
            lemma_count_positive_step(sc, i as int);
        }
        if sv[i] > 0 {
            let s = sv[i];
            let mut p: usize = 0;
            while p < order.len() && sv[order[p]] >= s
                invariant
                    p <= order@.len(),
                    i < sv.len(),
                    sc.len() == sv.len(),
                    forall|j: int| 0 <= j < sv.len() ==> sv@[j] == sc[j],
                    forall|k: int| 0 <= k < order@.len() ==> #[trigger] order@[k] < i,
                    forall|k: int| 0 <= k < p ==> sc[#[trigger] order@[k] as int] >= s,
                decreases order@.len() - p,
            {
                p = p + 1;
            }
            let ghost old_order = order@;
            order.insert(p, i);
            proof {
                assert forall|k: int| 0 <= k < order@.len() implies #[trigger] order@[k] < i + 1
                    && sc[order@[k] as int] > 0 by {
                    if k < p {
                        assert(order@[k] == old_order[k]);
                    } else if k > p {
                        assert(order@[k] == old_order[k - 1]);
                    }
                }
                assert forall|a: int, b: int| 0 <= a < b < order@.len() implies ranks_before(
                    sc,
                    #[trigger] order@[a] as int,
                    #[trigger] order@[b] as int,
                ) by {
                    if b < p {
                        assert(order@[a] == old_order[a] && order@[b] == old_order[b]);
                    } else if b == p {
                        assert(order@[a] == old_order[a]);
                    } else if a == p {
                        assert(order@[b] == old_order[b - 1]);
                        assert(sc[old_order[p as int] as int] < s);
                        if b - 1 > p {
                            assert(ranks_before(sc, old_order[p as int] as int, old_order[b - 1] as int));
                        }
                    } else if a < p {
                        assert(order@[a] == old_order[a] && order@[b] == old_order[b - 1]);
                    } else {
                        assert(order@[a] == old_order[a - 1] && order@[b] == old_order[b - 1]);
                    }
                }
                assert forall|j: int| 0 <= j < i + 1 && sc[j] > 0 implies order@.contains(
                    j as usize,
                ) by {
                    if j < i {
                        let k = choose|k: int| 0 <= k < old_order.len() && old_order[k] == j as usize;
                        if k < p {
                            assert(order@[k] == j as usize);
                        } else {
                            assert(order@[k + 1] == j as usize);
                        }
                    } else {
                        assert(order@[p as int] == i);
                    }
                }
            }
        } else {
            proof {
                assert forall|j: int| 0 <= j < i + 1 && sc[j] > 0 implies order@.contains(
                    j as usize,
                ) by {}
            }
        }
        i = i + 1;
    }
    assert(sc.take(sv.len() as int) =~= sc);
    let ghost full = order@;
    order.truncate(limit);
    proof {
        assert forall|j: int|
            0 <= j < sc.len() && sc[j] > 0 && !order@.contains(j as usize) implies forall|k: int|
            0 <= k < order@.len() ==> ranks_before(sc, #[trigger] order@[k] as int, j) by {
            let q = choose|q: int| 0 <= q < full.len() && full[q] == j as usize;
            assert forall|k: int| 0 <= k < order@.len() implies ranks_before(
                sc,
                #[trigger] order@[k] as int,
                j,
            ) by {
                assert(order@[k] == full[k]);
                if q < order@.len() {
                    assert(order@[q] == j as usize);
                    assert(order@.contains(j as usize));
                }
                assert(k < q);
            }
        }
    }
    order
}

/// The header that starts the examples.
pub open spec fn examples_title() -> Seq<char> {
    "### Relevanta exempel från kunskapsbasen\n\n"@
}

/// One example as a Markdown section with its code block; nothing when its
/// content could not be read.
pub open spec fn example_text(e: KbExample) -> Seq<char> {
    match e.code {
        Some(code) => "#### "@ + e.name@ + "\n```"@ + e.ext@ + "\n"@ + code@ + "\n```\n\n"@,
        None => seq![],
    }
}

/// The examples as context text: empty when there is none, else the
/// header and each readable example.
pub open spec fn examples_text(hits: Seq<KbExample>) -> Seq<char> {
    if hits.len() == 0 {
        seq![]
    } else {
        examples_title() + concat(Seq::new(hits.len(), |i: int| example_text(hits[i])))
    }
}

/// Renders the chosen examples for the language model's context.
pub fn render_examples(hits: &Vec<KbExample>) -> (r: String)
    ensures
        r@ == examples_text(hits@),
{
    if hits.len() == 0 {
        return String::new();
    }
    let mut out = owned("### Relevanta exempel från kunskapsbasen\n\n");
    let ghost head = out@;
    let ghost parts = Seq::new(hits@.len(), |i: int| example_text(hits@[i]));
    let mut i: usize = 0;
    while i < hits.len()
        invariant
            i <= hits.len(),
            parts == Seq::new(hits@.len(), |i: int| example_text(hits@[i])),
            out@ == head + concat(parts.take(i as int)),
        decreases hits.len() - i,
    {
        assert(parts.take(i + 1).drop_last() =~= parts.take(i as int));
        assert(parts.take(i + 1).last() == example_text(hits@[i as int]));
        let e = &hits[i];
        match &e.code {
            Some(code) => {
                push_str(&mut out, "#### ");
                push_str(&mut out, e.name.as_str());
                push_str(&mut out, "\n```");
                push_str(&mut out, e.ext.as_str());
                push_str(&mut out, "\n");
                push_str(&mut out, code.as_str());
                push_str(&mut out, "\n```\n\n");
            },
            None => {},
        }
        i = i + 1;
    }
    assert(parts.take(i as int) =~= parts);
    out
}

/// The name of a saved example: `<ts>_<stem>.<ext>`.
pub open spec fn example_file_name(ts: nat, stem: Seq<char>, ext: Seq<char>) -> Seq<char> {
    decimal(ts) + "_"@ + stem + "."@ + ext
}

/// The name of an example's metadata: `<ts>_<stem>.meta.json`.
pub open spec fn meta_file_name(ts: nat, stem: Seq<char>) -> Seq<char> {
    decimal(ts) + "_"@ + stem + ".meta.json"@
}

/// The stem, `fil` when the saved file has none.
pub open spec fn stem_or_default(stem: Option<Seq<char>>) -> Seq<char> {
    match stem {
        Some(s) => s,
        None => "fil"@,
    }
}

/// The extension, `txt` when the saved file has none.
pub open spec fn ext_or_default(ext: Option<Seq<char>>) -> Seq<char> {
    match ext {
        Some(e) => e,
        None => "txt"@,
    }
}

/// Where an example and its metadata are saved in the directory `dir`,
/// and the language recorded for it (its extension).
pub fn example_paths(dir: &str, ts: u64, stem: Option<String>, ext: Option<String>) -> (r: (
    String,
    String,
    String,
))
    ensures
        ({
            let s = stem_or_default(
                match stem {
                    Some(x) => Some(x@),
                    None => None,
                },
            );
            let e = ext_or_default(
                match ext {
                    Some(x) => Some(x@),
                    None => None,
                },
            );
            &&& r.0@ == path_join(dir@, example_file_name(ts as nat, s, e))
            &&& r.1@ == path_join(dir@, meta_file_name(ts as nat, s))
            &&& r.2@ == e
        }),
{
    let s = match stem {
        Some(x) => x,
        None => owned("fil"),
    };
    let e = match ext {
        Some(x) => x,
        None => owned("txt"),
    };
    let mut code_name = String::new();
    push_decimal(&mut code_name, ts);
    push_str(&mut code_name, "_");
    push_str(&mut code_name, s.as_str());
    let mut meta_name = owned(code_name.as_str());
    push_str(&mut code_name, ".");
    push_str(&mut code_name, e.as_str());
    push_str(&mut meta_name, ".meta.json");
    let code_path = join_path(dir, code_name.as_str());
    let meta_path = join_path(dir, meta_name.as_str());
    assert(code_name@ =~= example_file_name(ts as nat, s@, e@));
    assert(meta_name@ =~= meta_file_name(ts as nat, s@));
    (code_path, meta_path, e)
}

} // verus!
