//! The document builder: folds a sequence of raw lines into a `Config`.
//!
//! Each line is trimmed and classified; group headers open a group, items
//! land in the group the cursor points at, comments and blank lines do
//! nothing.  A line matching no grammar shape aborts the whole parse with
//! a syntax error.  The abstract builder state (`BuildState`) pins the
//! meaning of every step, so the result of a parse is a function of the
//! document and the strictness mode alone.

use vstd::prelude::*;

use crate::config::Config;
use crate::errors::ConfigReadError;
use crate::grammar::{
    is_group_header, is_item_line, is_line_valid, group_header_name, parse_line, spec_group_name,
    spec_is_group_header, spec_is_item, spec_item_key, spec_item_value, spec_line_valid,
    spec_rejected, spec_unquote,
};
use crate::text::{trim, trim_str};
use crate::{Options, StringStrictness, StringStrictnessBehavior};

verus! {

/// The abstract state of the document builder: the groups built so far and
/// the name of the group the cursor points at.
pub ghost struct BuildState {
    pub groups: Map<Seq<char>, Map<Seq<char>, Seq<char>>>,
    pub cursor: Option<Seq<char>>,
}

/// The builder state before any line has been processed.
pub open spec fn initial_state() -> BuildState {
    BuildState { groups: Map::empty(), cursor: None }
}

/// How one raw line changes the builder state.
pub open spec fn spec_step(st: BuildState, line: Seq<char>, s: StringStrictness) -> BuildState {
    let t = trim(line);
    if spec_is_group_header(t) {
        BuildState {
            groups: st.groups.insert(spec_group_name(t), Map::empty()),
            cursor: Some(spec_group_name(t)),
        }
    } else if spec_is_item(t) {
        if spec_rejected(spec_item_value(t), s) {
            st
        } else {
            match st.cursor {
                Some(g) => BuildState {
                    groups: st.groups.insert(
                        g,
                        st.groups[g].insert(spec_item_key(t), spec_unquote(spec_item_value(t))),
                    ),
                    cursor: st.cursor,
                },
                None => st,
            }
        }
    } else {
        st
    }
}

/// The builder state after all lines of the document.
pub open spec fn spec_build(doc: Seq<Seq<char>>, s: StringStrictness) -> BuildState
    decreases doc.len(),
{
    if doc.len() == 0 {
        initial_state()
    } else {
        spec_step(spec_build(doc.drop_last(), s), doc.last(), s)
    }
}

/// True if every line of the document matches a grammar shape.
pub open spec fn spec_doc_valid(doc: Seq<Seq<char>>) -> bool {
    forall|i: int| 0 <= i < doc.len() ==> spec_line_valid(trim(doc[i]))
}

/// True if processing reaches line `i` (every earlier line is valid) and
/// line `i` is an item whose value the strictness policy drops.
pub open spec fn spec_abort_at(doc: Seq<Seq<char>>, s: StringStrictness, i: int) -> bool {
    &&& 0 <= i < doc.len()
    &&& forall|j: int| 0 <= j < i ==> spec_line_valid(trim(doc[j]))
    &&& spec_is_item(trim(doc[i]))
    &&& spec_rejected(spec_item_value(trim(doc[i])), s)
}

/// True if processing the document reaches a rejected item; under the
/// `Panic` behavior processing stops fatally at that point.
pub open spec fn spec_would_abort(doc: Seq<Seq<char>>, s: StringStrictness) -> bool {
    exists|i: int| spec_abort_at(doc, s, i)
}

/// The sequence of character views of a line vector.
pub open spec fn doc_view(lines: Seq<String>) -> Seq<Seq<char>> {
    lines.map_values(|l: String| l@)
}

/// Parses a whole document into a `Config`.
///
/// Every line must match one of the four grammar shapes; the first line
/// that does not aborts the parse with `InvalidSyntaxOnLine`.  Rejected
/// item values are skipped; the `Panic` behavior, whose effect is a fatal
/// stop rather than a result, is accepted only on documents where no
/// rejection is reached.
pub fn parse_config_file(lines: &Vec<String>, options: &Options) -> (r: Result<
    Config,
    ConfigReadError,
>)
    requires
        options.string_strictness_behavior == StringStrictnessBehavior::Panic
            ==> !spec_would_abort(doc_view(lines@), options.string_strictness),
    ensures
        r is Ok <==> spec_doc_valid(doc_view(lines@)),
        r matches Err(e) ==> e == ConfigReadError::InvalidSyntaxOnLine,
        r matches Ok(c) ==> {
            &&& c.wf()
            &&& c@ == spec_build(doc_view(lines@), options.string_strictness).groups
            &&& c.cursor_name() == spec_build(doc_view(lines@), options.string_strictness).cursor
        },
{
    let ghost doc = doc_view(lines@);
    let ghost s = options.string_strictness;
    let mut config = Config::new();
    let n = lines.len();
    let mut i: usize = 0;
    while i < n
        invariant
            0 <= i <= n,
            n == lines@.len(),
            doc == doc_view(lines@),
            s == options.string_strictness,
            options.string_strictness_behavior == StringStrictnessBehavior::Panic
                ==> !spec_would_abort(doc, s),
            forall|j: int| 0 <= j < i ==> spec_line_valid(trim(doc[j])),
            config.wf(),
            config@ == spec_build(doc.take(i as int), s).groups,
            config.cursor_name() == spec_build(doc.take(i as int), s).cursor,
        decreases n - i,
    {
        let t = trim_str(lines[i].as_str());
        proof {
            assert(doc[i as int] == lines@[i as int]@);
            assert(t@ == trim(doc[i as int]));
            assert(doc.take(i + 1).drop_last() =~= doc.take(i as int));
            assert(doc.take(i + 1).last() == doc[i as int]);
        }
        if !is_line_valid(t) {
            proof {
                assert(!spec_line_valid(trim(doc[i as int])));
            }
            return Err(ConfigReadError::InvalidSyntaxOnLine);
        }
        let ghost st0 = spec_build(doc.take(i as int), s);
        if is_group_header(t) {
            let name = group_header_name(t);
            config.add_group(name);
            proof {
                assert(spec_build(doc.take(i + 1), s) == spec_step(st0, doc[i as int], s));
            }
        } else if is_item_line(t) {
            match parse_line(t, options) {
                Some(item) => {
                    config.insert(item);
                    proof {
                        assert(spec_build(doc.take(i + 1), s) == spec_step(st0, doc[i as int], s));
                    }
                },
                None => {
                    // the value was rejected by the strictness policy: the
                    // item is skipped; under the Panic behavior this point
                    // is unreachable by the precondition
                    proof {
                        if options.string_strictness_behavior
                            == StringStrictnessBehavior::Panic {
                            assert(spec_abort_at(doc, s, i as int));
                            assert(false);
                        }
                        assert(spec_build(doc.take(i + 1), s) == spec_step(st0, doc[i as int], s));
                    }
                },
            }
        } else {
            proof {
                assert(spec_build(doc.take(i + 1), s) == spec_step(st0, doc[i as int], s));
                assert(spec_step(st0, doc[i as int], s) == st0);
            }
        }
        i = i + 1;
    }
    proof {
        assert(doc.take(n as int) =~= doc);
    }
    Ok(config)
}

/// Returns the position of the line where processing would stop fatally
/// under the `Panic` behavior: the first rejected item value reached, with
/// every earlier line valid.  Returns `None` when processing never stops
/// fatally, in particular under the `Ignore` behavior.
pub fn first_panic_line(lines: &Vec<String>, options: &Options) -> (r: Option<usize>)
    ensures
        r matches Some(i) ==> {
            &&& options.string_strictness_behavior == StringStrictnessBehavior::Panic
            &&& spec_abort_at(doc_view(lines@), options.string_strictness, i as int)
            &&& forall|j: int|
                0 <= j < i ==> !spec_abort_at(doc_view(lines@), options.string_strictness, j)
        },
        r is None <==> !(options.string_strictness_behavior == StringStrictnessBehavior::Panic
            && spec_would_abort(doc_view(lines@), options.string_strictness)),
{
    let ghost doc = doc_view(lines@);
    let ghost s = options.string_strictness;
    if options.string_strictness_behavior == StringStrictnessBehavior::Ignore {
        return None;
    }
    let n = lines.len();
    let mut i: usize = 0;
    while i < n
        invariant
            0 <= i <= n,
            n == lines@.len(),
            doc == doc_view(lines@),
            s == options.string_strictness,
            options.string_strictness_behavior == StringStrictnessBehavior::Panic,
            forall|j: int| 0 <= j < i ==> spec_line_valid(trim(doc[j])),
            forall|j: int| 0 <= j < i ==> !spec_abort_at(doc, s, j),
        decreases n - i,
    {
        let t = trim_str(lines[i].as_str());
        proof {
            assert(doc[i as int] == lines@[i as int]@);
            assert(t@ == trim(doc[i as int]));
        }
        if !is_line_valid(t) {
            proof {
                assert forall|k: int| !spec_abort_at(doc, s, k) by {
                    if (i as int) < k && k < doc.len() {
                        assert(!spec_line_valid(trim(doc[i as int])));
                    }
                }
            }
            return None;
        }
        if is_item_line(t) {
            match parse_line(t, options) {
                Some(_) => {
                },
                None => {
                    proof {
                        assert(spec_abort_at(doc, s, i as int));
                    }
                    return Some(i);
                },
            }
        }
        i = i + 1;
    }
    proof {
        assert forall|k: int| !spec_abort_at(doc, s, k) by {}
    }
    None
}

/// Law: parsing is deterministic.  Any two configurations that satisfy the
/// parse postcondition for the same document and strictness mode hold the
/// same groups, keys and values.
pub proof fn lemma_parse_deterministic(
    doc: Seq<Seq<char>>,
    s: StringStrictness,
    c1: Config,
    c2: Config,
)
    requires
        c1@ == spec_build(doc, s).groups,
        c2@ == spec_build(doc, s).groups,
    ensures
        c1@ == c2@,
{
}

/// Law: when the same key is declared twice in the currently open group,
/// the group retains only the later declaration's value.
pub proof fn lemma_last_value_wins(
    st: BuildState,
    g: Seq<char>,
    l1: Seq<char>,
    l2: Seq<char>,
    s: StringStrictness,
)
    requires
        st.cursor == Some(g),
        spec_is_item(trim(l1)),
        spec_is_item(trim(l2)),
        !spec_rejected(spec_item_value(trim(l1)), s),
        !spec_rejected(spec_item_value(trim(l2)), s),
        spec_item_key(trim(l1)) == spec_item_key(trim(l2)),
    ensures
        spec_step(spec_step(st, l1, s), l2, s).groups[g][spec_item_key(trim(l2))]
            == spec_unquote(spec_item_value(trim(l2))),
{
    let t1 = trim(l1);
    let t2 = trim(l2);
    assert(!spec_is_group_header(t1)) by {
        assert(crate::grammar::is_lower(t1[0]));
    }
    assert(!spec_is_group_header(t2)) by {
        assert(crate::grammar::is_lower(t2[0]));
    }
}

/// Law: any line that is not a group header, processed while no group is
/// open, leaves the builder state unchanged: it lands in no group and
/// opens none.
pub proof fn lemma_line_before_header_dropped(st: BuildState, l: Seq<char>, s: StringStrictness)
    requires
        st.cursor is None,
        !spec_is_group_header(trim(l)),
    ensures
        spec_step(st, l, s) == st,
{
}

/// Law: a document with no group header at all builds a configuration with
/// no groups, whatever its other lines hold.
pub proof fn lemma_no_header_no_groups(doc: Seq<Seq<char>>, s: StringStrictness)
    requires
        forall|i: int| 0 <= i < doc.len() ==> !spec_is_group_header(trim(doc[i])),
    ensures
        spec_build(doc, s).groups == Map::<Seq<char>, Map<Seq<char>, Seq<char>>>::empty(),
        spec_build(doc, s).cursor is None,
    decreases doc.len(),
{
    if doc.len() > 0 {
        lemma_no_header_no_groups(doc.drop_last(), s);
        lemma_line_before_header_dropped(spec_build(doc.drop_last(), s), doc.last(), s);
    }
}

} // verus!
