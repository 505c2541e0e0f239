//! The line-oriented scanner over the primary configuration syntax.
//!
//! One forward pass classifies each line: blank lines clear the comment
//! accumulator; comment lines (leading `"`, marker stripped) accumulate;
//! binding lines emit a binding, with the accumulated comments attached as
//! documentation when they stand immediately before it; a line whose
//! whitespace-stripped form equals the block opener `lua<<EOF` starts an
//! embedded block, buffered verbatim until a line trims to the terminator
//! `EOF`; and any other line resets the state.  A terminator outside a
//! block, a line that starts with the block keyword without being the exact
//! opener, and a block left open at the end of input are fatal, each with
//! its 1-based line number.

use vstd::prelude::*;

use crate::grammar::binding_parts;
use crate::grammar::match_binding;
use crate::keybinding::Keybinding;
use crate::keybinding::KeybindingDoc;
use crate::keybinding::KeybindingDocView;
use crate::keybinding::KeybindingView;
use crate::keybinding::kb_views;
use crate::navigator::block_expansion;
use crate::navigator::lemma_block_expansion_wf;
use crate::text::is_prefix;
use crate::text::join_spaces;
use crate::text::join_with_spaces;
use crate::text::remove_ws;
use crate::text::remove_ws_str;
use crate::text::str_eq;
use crate::text::str_starts_with;
use crate::text::trim;
use crate::text::trim_str;

verus! {

/// A fatal structural fault of the primary file, with its 1-based line
/// number.
#[derive(Clone, Copy, Debug, PartialEq, Eq, Structural)]
pub enum ParseError {
    /// A line starts with the block keyword but is not the exact opener.
    InvalidLuaBlock(usize),
    /// The terminator stands outside any block.
    UnmatchedEOF(usize),
    /// A block opened on this line is still open at the end of input.
    UnterminatedBlock(usize),
}

impl ParseError {
    /// The 1-based line number the fault points at.
    pub fn line(&self) -> (r: usize)
        ensures
            *self == ParseError::InvalidLuaBlock(r) || *self == ParseError::UnmatchedEOF(r)
                || *self == ParseError::UnterminatedBlock(r),
    {
        match self {
            ParseError::InvalidLuaBlock(n) => *n,
            ParseError::UnmatchedEOF(n) => *n,
            ParseError::UnterminatedBlock(n) => *n,
        }
    }
}

/// The scanner's mode after a line: exactly one is active at a time.
#[derive(Clone, Copy, Debug, PartialEq, Eq, Structural)]
pub enum ParseMode {
    Neutral,
    InComment,
    AfterBinding,
    InSecondaryBlock,
}

/// What one pass of the scanner yields, in order: bindings written in the
/// primary syntax, and embedded blocks handed on to the navigator.
pub enum ScanItem {
    Binding(Keybinding),
    Block(String),
}

/// Mathematical image of a [`ScanItem`].
pub ghost enum ScanItemView {
    Binding(KeybindingView),
    Block(Seq<char>),
}

impl View for ScanItem {
    type V = ScanItemView;

    open spec fn view(&self) -> ScanItemView {
        match self {
            ScanItem::Binding(b) => ScanItemView::Binding(b@),
            ScanItem::Block(code) => ScanItemView::Block(code@),
        }
    }
}

/// The views of a sequence of scan items, element for element.
pub open spec fn item_views(s: Seq<ScanItem>) -> Seq<ScanItemView> {
    s.map_values(|it: ScanItem| it@)
}

/// The terminator sentinel, as a trimmed line.
pub open spec fn terminator() -> Seq<char> {
    seq!['E', 'O', 'F']
}

/// The block-opener sentinel, as a whitespace-stripped line.
pub open spec fn opener() -> Seq<char> {
    seq!['l', 'u', 'a', '<', '<', 'E', 'O', 'F']
}

/// The secondary-language keyword that makes a non-opener line fatal.
pub open spec fn lua_word() -> Seq<char> {
    seq!['l', 'u', 'a']
}

/// The scanner's full state between lines.
pub ghost struct ScanState {
    /// The active mode.
    pub mode: ParseMode,
    /// The accumulated comment fragments, markers stripped.
    pub comments: Seq<Seq<char>>,
    /// The buffered block source while a block is open.
    pub block: Seq<char>,
    /// The line the open block's opener stood on.
    pub block_line: usize,
    /// Everything emitted so far.
    pub items: Seq<ScanItemView>,
}

/// The state before the first line.
pub open spec fn init_state() -> ScanState {
    ScanState {
        mode: ParseMode::Neutral,
        comments: Seq::empty(),
        block: Seq::empty(),
        block_line: 0,
        items: Seq::empty(),
    }
}

/// One line's transition: the next state, or the fatal fault the line
/// raises.
pub open spec fn scan_step(st: ScanState, line: Seq<char>, lineno: usize) -> Result<
    ScanState,
    ParseError,
> {
    let t = trim(line);
    if st.mode == ParseMode::InSecondaryBlock {
        if t == terminator() {
            Ok(
                ScanState {
                    mode: ParseMode::Neutral,
                    comments: Seq::empty(),
                    block: Seq::empty(),
                    block_line: st.block_line,
                    items: st.items.push(ScanItemView::Block(st.block)),
                },
            )
        } else {
            Ok(
                ScanState {
                    mode: st.mode,
                    comments: st.comments,
                    block: st.block + line + seq!['\n'],
                    block_line: st.block_line,
                    items: st.items,
                },
            )
        }
    } else {
        if t == terminator() {
            Err(ParseError::UnmatchedEOF(lineno))
        } else if t.len() == 0 {
            Ok(
                ScanState {
                    mode: ParseMode::Neutral,
                    comments: Seq::empty(),
                    block: st.block,
                    block_line: st.block_line,
                    items: st.items,
                },
            )
        } else if t[0] == '"' {
            Ok(
                ScanState {
                    mode: ParseMode::InComment,
                    comments: st.comments.push(t.drop_first()),
                    block: st.block,
                    block_line: st.block_line,
                    items: st.items,
                },
            )
        } else if binding_parts(t) is Some {
            let kc = binding_parts(t).unwrap();
            let doc = if st.mode == ParseMode::InComment {
                Some(KeybindingDocView { description: join_spaces(st.comments), examples: None })
            } else {
                None
            };
            Ok(
                ScanState {
                    mode: ParseMode::AfterBinding,
                    comments: Seq::empty(),
                    block: st.block,
                    block_line: st.block_line,
                    items: st.items.push(
                        ScanItemView::Binding(
                            KeybindingView {
                                root: Seq::empty(),
                                keymap: kc.0,
                                command: kc.1,
                                doc: doc,
                            },
                        ),
                    ),
                },
            )
        } else if remove_ws(line) == opener() {
            Ok(
                ScanState {
                    mode: ParseMode::InSecondaryBlock,
                    comments: st.comments,
                    block: Seq::empty(),
                    block_line: lineno,
                    items: st.items,
                },
            )
        } else if is_prefix(lua_word(), line) {
            Err(ParseError::InvalidLuaBlock(lineno))
        } else {
            Ok(
                ScanState {
                    mode: ParseMode::Neutral,
                    comments: Seq::empty(),
                    block: st.block,
                    block_line: st.block_line,
                    items: st.items,
                },
            )
        }
    }
}

/// The scanner folded over the remaining lines, the next of which is
/// numbered `lineno`.
pub open spec fn scan_from(st: ScanState, lines: Seq<Seq<char>>, lineno: usize) -> Result<
    ScanState,
    ParseError,
>
    decreases lines.len(),
{
    if lines.len() == 0 {
        Ok(st)
    } else {
        match scan_step(st, lines[0], lineno) {
            Err(e) => Err(e),
            Ok(st2) => scan_from(st2, lines.drop_first(), (lineno + 1) as usize),
        }
    }
}

/// The scanner's image of a whole file: its items in order, or the fatal
/// fault, counting a block still open at the end of input.
pub open spec fn scan_spec(lines: Seq<Seq<char>>) -> Result<Seq<ScanItemView>, ParseError> {
    match scan_from(init_state(), lines, 1) {
        Err(e) => Err(e),
        Ok(st) => if st.mode == ParseMode::InSecondaryBlock {
            Err(ParseError::UnterminatedBlock(st.block_line))
        } else {
            Ok(st.items)
        },
    }
}

/// Scans the file's lines into bindings and embedded blocks.
pub fn scan(lines: &Vec<String>) -> (r: Result<Vec<ScanItem>, ParseError>)
    ensures
        match r {
            Ok(items) => scan_spec(lines.deep_view()) == Ok::<_, ParseError>(item_views(items@)),
            Err(e) => scan_spec(lines.deep_view()) == Err::<Seq<ScanItemView>, _>(e),
        },
{
    let ghost all = lines.deep_view();
    let mut mode = ParseMode::Neutral;
    let mut comments: Vec<String> = Vec::new();
    let mut block = String::new();
    let mut block_line: usize = 0;
    let mut items: Vec<ScanItem> = Vec::new();
    let n = lines.len();
    let mut i: usize = 0;
    proof {
        assert(all.len() == n);
        assert(item_views(items@) =~= Seq::<ScanItemView>::empty());
        assert(comments.deep_view() =~= Seq::<Seq<char>>::empty());
        assert(all.skip(0) =~= all);
    }
    while i < n
        invariant
            0 <= i <= n,
            n == lines@.len(),
            all == lines.deep_view(),
            all.len() == n,
            scan_from(init_state(), all, 1) == scan_from(
                (ScanState {
                    mode,
                    comments: comments.deep_view(),
                    block: block@,
                    block_line,
                    items: item_views(items@),
                }),
                all.skip(i as int),
                (i + 1) as usize,
            ),
        decreases n - i,
    {
        let ghost st0 = ScanState {
            mode,
            comments: comments.deep_view(),
            block: block@,
            block_line,
            items: item_views(items@),
        };
        let ghost rem = all.skip(i as int);
        let line = &lines[i];
        let lineno = i + 1;
        proof {
            assert(rem.len() == n - i);
            assert(rem[0] == all[i as int]);
            assert(all[i as int] == lines@[i as int]@);
            assert(rem.drop_first() =~= all.skip(i as int + 1));
        }
        proof {
            reveal_strlit("EOF");
            reveal_strlit("lua<<EOF");
            reveal_strlit("lua");
            assert("EOF"@ =~= terminator());
            assert("lua<<EOF"@ =~= opener());
            assert("lua"@ =~= lua_word());
        }
        let t = trim_str(line.as_str());
        if mode == ParseMode::InSecondaryBlock {
            if str_eq(t, "EOF") {
                let code = block.clone();
                let ghost items0 = item_views(items@);
                items.push(ScanItem::Block(code));
                block = String::new();
                mode = ParseMode::Neutral;
                comments = Vec::new();
                proof {
                    assert(item_views(items@) =~= items0.push(ScanItemView::Block(st0.block)));
                    assert(comments.deep_view() =~= Seq::<Seq<char>>::empty());
                }
            } else {
                block.append(line.as_str());
                block.push('\n');
                proof {
                    assert(block@ =~= st0.block + lines@[i as int]@ + seq!['\n']);
                }
            }
        } else {
            if str_eq(t, "EOF") {
                proof {
                    assert(scan_step(st0, rem[0], lineno) == Err::<ScanState, _>(
                        ParseError::UnmatchedEOF(lineno),
                    ));
                    assert(scan_from(st0, rem, (i + 1) as usize) == Err::<ScanState, _>(
                        ParseError::UnmatchedEOF(lineno),
                    ));
                }
                return Err(ParseError::UnmatchedEOF(lineno));
            } else if t.unicode_len() == 0 {
                mode = ParseMode::Neutral;
                comments = Vec::new();
                proof {
                    assert(comments.deep_view() =~= Seq::<Seq<char>>::empty());
                }
            } else if t.get_char(0) == '"' {
                let tn = t.unicode_len();
                let content = String::from_str(t.substring_char(1, tn));
                let ghost cs0 = comments.deep_view();
                comments.push(content);
                mode = ParseMode::InComment;
                proof {
                    assert(trim(rem[0]).subrange(1, trim(rem[0]).len() as int) =~= trim(
                        rem[0],
                    ).drop_first());
                    assert(comments.deep_view() =~= cs0.push(trim(rem[0]).drop_first()));
                }
            } else if let Some(kc) = match_binding(t) {
                let doc = if mode == ParseMode::InComment {
                    Some(
                        KeybindingDoc {
                            description: join_with_spaces(&comments),
                            examples: None,
                        },
                    )
                } else {
                    None
                };
                let b = Keybinding { root: String::new(), keymap: kc.0, command: kc.1, doc };
                let ghost bv = b@;
                let ghost items0 = item_views(items@);
                items.push(ScanItem::Binding(b));
                comments = Vec::new();
                mode = ParseMode::AfterBinding;
                proof {
                    assert(item_views(items@) =~= items0.push(ScanItemView::Binding(bv)));
                    assert(comments.deep_view() =~= Seq::<Seq<char>>::empty());
                }
            } else {
                let stripped = remove_ws_str(line.as_str());
                if str_eq(stripped.as_str(), "lua<<EOF") {
                    mode = ParseMode::InSecondaryBlock;
                    block = String::new();
                    block_line = lineno;
                } else if str_starts_with(line.as_str(), "lua") {
                    proof {
                        assert(scan_step(st0, rem[0], lineno) == Err::<ScanState, _>(
                            ParseError::InvalidLuaBlock(lineno),
                        ));
                        assert(scan_from(st0, rem, (i + 1) as usize) == Err::<ScanState, _>(
                            ParseError::InvalidLuaBlock(lineno),
                        ));
                    }
                    return Err(ParseError::InvalidLuaBlock(lineno));
                } else {
                    mode = ParseMode::Neutral;
                    comments = Vec::new();
                    proof {
                        assert(comments.deep_view() =~= Seq::<Seq<char>>::empty());
                    }
                }
            }
        }
        proof {
            let st1 = ScanState {
                mode,
                comments: comments.deep_view(),
                block: block@,
                block_line,
                items: item_views(items@),
            };
            assert(scan_step(st0, rem[0], lineno) == Ok::<_, ParseError>(st1));
            assert(scan_from(st0, rem, (i + 1) as usize) == scan_from(
                st1,
                all.skip(i as int + 1),
                (i + 2) as usize,
            ));
        }
        i = i + 1;
    }
    proof {
        assert(all.skip(n as int) =~= Seq::<Seq<char>>::empty());
    }
    if mode == ParseMode::InSecondaryBlock {
        return Err(ParseError::UnterminatedBlock(block_line));
    }
    Ok(items)
}

/// How the scanner's items relate to the final output: bindings pass
/// through one for one and in order, and each block expands, in place, to
/// exactly its own expansion — the walker's image of that block's text.
pub open spec fn splice_ok(items: Seq<ScanItemView>, out: Seq<KeybindingView>) -> bool
    decreases items.len(),
{
    if items.len() == 0 {
        out.len() == 0
    } else {
        match items[0] {
            ScanItemView::Binding(b) => out.len() > 0 && out[0] == b && splice_ok(
                items.drop_first(),
                out.drop_first(),
            ),
            ScanItemView::Block(code) => {
                let bs = block_expansion(code);
                bs.len() <= out.len() && out.subrange(0, bs.len() as int) == bs && splice_ok(
                    items.drop_first(),
                    out.skip(bs.len() as int),
                )
            },
        }
    }
}

/// A spliced output extended by one passed-through binding stays spliced.
pub proof fn lemma_splice_push_binding(
    items: Seq<ScanItemView>,
    out: Seq<KeybindingView>,
    b: KeybindingView,
)
    requires
        splice_ok(items, out),
    ensures
        splice_ok(items.push(ScanItemView::Binding(b)), out.push(b)),
    decreases items.len(),
{
    let its = items.push(ScanItemView::Binding(b));
    let os = out.push(b);
    if items.len() == 0 {
        assert(its[0] == ScanItemView::Binding(b));
        assert(os[0] == b);
        assert(its.drop_first() =~= Seq::<ScanItemView>::empty());
        assert(os.drop_first() =~= Seq::<KeybindingView>::empty());
        assert(splice_ok(its.drop_first(), os.drop_first()));
    } else {
        assert(its[0] == items[0]);
        match items[0] {
            ScanItemView::Binding(b0) => {
                lemma_splice_push_binding(items.drop_first(), out.drop_first(), b);
                assert(its.drop_first() =~= items.drop_first().push(ScanItemView::Binding(b)));
                assert(os.drop_first() =~= out.drop_first().push(b));
                assert(os[0] == out[0]);
            },
            ScanItemView::Block(code) => {
                let k = block_expansion(code).len() as int;
                lemma_splice_push_binding(items.drop_first(), out.skip(k), b);
                assert(os.subrange(0, k) =~= out.subrange(0, k));
                assert(os.skip(k) =~= out.skip(k).push(b));
                assert(its.drop_first() =~= items.drop_first().push(ScanItemView::Binding(b)));
            },
        }
    }
}

/// A spliced output extended by one block's expansion stays spliced.
pub proof fn lemma_splice_push_block(
    items: Seq<ScanItemView>,
    out: Seq<KeybindingView>,
    code: Seq<char>,
)
    requires
        splice_ok(items, out),
    ensures
        splice_ok(items.push(ScanItemView::Block(code)), out + block_expansion(code)),
    decreases items.len(),
{
    let bs = block_expansion(code);
    let its = items.push(ScanItemView::Block(code));
    let os = out + bs;
    if items.len() == 0 {
        assert(its[0] == ScanItemView::Block(code));
        assert(os.subrange(0, bs.len() as int) =~= bs);
        assert(os.skip(bs.len() as int) =~= Seq::<KeybindingView>::empty());
        assert(its.drop_first() =~= Seq::<ScanItemView>::empty());
        assert(splice_ok(its.drop_first(), os.skip(bs.len() as int)));
    } else {
        assert(its[0] == items[0]);
        match items[0] {
            ScanItemView::Binding(b0) => {
                lemma_splice_push_block(items.drop_first(), out.drop_first(), code);
                assert(its.drop_first() =~= items.drop_first().push(ScanItemView::Block(code)));
                assert(os.drop_first() =~= out.drop_first() + bs);
                assert(os[0] == out[0]);
            },
            ScanItemView::Block(c0) => {
                let k = block_expansion(c0).len() as int;
                lemma_splice_push_block(items.drop_first(), out.skip(k), code);
                assert(os.subrange(0, k) =~= out.subrange(0, k));
                assert(os.skip(k) =~= out.skip(k) + bs);
                assert(its.drop_first() =~= items.drop_first().push(ScanItemView::Block(code)));
            },
        }
    }
}

/// Every binding item among the scanner's items is well formed and carries
/// an empty root.
pub open spec fn binding_items_wf(items: Seq<ScanItemView>) -> bool {
    forall|i: int|
        0 <= i < items.len() ==> (#[trigger] items[i] matches ScanItemView::Binding(b) ==> b.wf()
            && b.root.len() == 0)
}

/// One scanner step keeps every emitted binding well formed.
proof fn lemma_scan_step_items_wf(st: ScanState, line: Seq<char>, lineno: usize)
    requires
        binding_items_wf(st.items),
        scan_step(st, line, lineno) is Ok,
    ensures
        binding_items_wf(scan_step(st, line, lineno).unwrap().items),
{
    let t = trim(line);
    let its = scan_step(st, line, lineno).unwrap().items;
    if st.mode != ParseMode::InSecondaryBlock && t != terminator() && t.len() > 0 && t[0] != '"'
        && binding_parts(t) is Some {
        crate::grammar::lemma_binding_parts_wf(t);
        assert forall|i: int| 0 <= i < its.len() implies (#[trigger] its[i] matches
            ScanItemView::Binding(b) ==> b.wf() && b.root.len() == 0) by {
            if i < st.items.len() {
                assert(its[i] == st.items[i]);
            }
        }
    } else {
        assert forall|i: int| 0 <= i < its.len() implies (#[trigger] its[i] matches
            ScanItemView::Binding(b) ==> b.wf() && b.root.len() == 0) by {
            if i < st.items.len() {
                assert(its[i] == st.items[i]);
            }
        }
    }
}

/// The whole scan keeps every emitted binding well formed.
pub proof fn lemma_scan_from_items_wf(st: ScanState, lines: Seq<Seq<char>>, lineno: usize)
    requires
        binding_items_wf(st.items),
    ensures
        scan_from(st, lines, lineno) is Ok ==> binding_items_wf(
            scan_from(st, lines, lineno).unwrap().items,
        ),
    decreases lines.len(),
{
    if lines.len() > 0 {
        match scan_step(st, lines[0], lineno) {
            Err(_) => {},
            Ok(st2) => {
                lemma_scan_step_items_wf(st, lines[0], lineno);
                lemma_scan_from_items_wf(st2, lines.drop_first(), (lineno + 1) as usize);
            },
        }
    }
}

/// Parses the whole file: scans it, expands each embedded block through the
/// navigator, and yields the bindings in order.  Bindings written in the
/// primary syntax pass through exactly as the grammar captured them; each
/// block expands in place to exactly its own expansion; and every binding
/// of the output keeps a non-empty keymap and a non-empty command.
pub fn parse(lines: &Vec<String>) -> (r: Result<Vec<Keybinding>, ParseError>)
    ensures
        match r {
            Ok(v) => {
                &&& scan_spec(lines.deep_view()) is Ok
                &&& splice_ok(scan_spec(lines.deep_view()).unwrap(), kb_views(v@))
                &&& forall|i: int|
                    0 <= i < v@.len() ==> (#[trigger] kb_views(v@)[i]).wf()
            },
            Err(e) => scan_spec(lines.deep_view()) == Err::<Seq<ScanItemView>, _>(e),
        },
{
    let mut items = match scan(lines) {
        Ok(it) => it,
        Err(e) => {
            return Err(e);
        },
    };
    let ghost ivs = item_views(items@);
    proof {
        lemma_scan_from_items_wf(init_state(), lines.deep_view(), 1);
        assert(binding_items_wf(ivs));
    }
    let mut out: Vec<Keybinding> = Vec::new();
    proof {
        assert(kb_views(out@) =~= Seq::<KeybindingView>::empty());
        assert(splice_ok(ivs.subrange(0, 0), kb_views(out@)));
    }
    while items.len() > 0
        invariant
            items@.len() <= ivs.len(),
            item_views(items@) =~= ivs.skip(ivs.len() - items@.len()),
            splice_ok(ivs.subrange(0, ivs.len() - items@.len()), kb_views(out@)),
            binding_items_wf(ivs),
            forall|i: int| 0 <= i < out@.len() ==> (#[trigger] kb_views(out@)[i]).wf(),
        decreases items@.len(),
    {
        let ghost done = ivs.len() - items@.len();
        let ghost pre = items@;
        let it = items.remove(0);
        proof {
            assert(item_views(pre)[0] == pre[0]@);
            assert(it@ == ivs[done]);
            assert forall|j: int| 0 <= j < items@.len() implies item_views(items@)[j] == ivs[done
                + 1 + j] by {
                assert(items@[j] == pre[j + 1]);
                assert(item_views(pre)[j + 1] == pre[j + 1]@);
                assert(item_views(items@)[j] == items@[j]@);
            }
            assert(item_views(items@) =~= ivs.skip(done + 1));
            assert(ivs.subrange(0, done).push(ivs[done]) =~= ivs.subrange(0, done + 1));
        }
        let ghost out0 = kb_views(out@);
        match it {
            ScanItem::Binding(b) => {
                let ghost bv = b@;
                out.push(b);
                proof {
                    assert(kb_views(out@) =~= out0.push(bv));
                    lemma_splice_push_binding(ivs.subrange(0, done), out0, bv);
                    assert(ivs.subrange(0, done).push(ScanItemView::Binding(bv)) =~= ivs.subrange(
                        0,
                        done + 1,
                    ));
                    assert(bv.wf());
                }
            },
            ScanItem::Block(code) => {
                let ghost cv = code@;
                match crate::navigator::parse_lua(code.as_str()) {
                    Some(mut v) => {
                        let ghost bs = kb_views(v@);
                        proof {
                            assert(bs == block_expansion(cv));
                            lemma_block_expansion_wf(cv);
                        }
                        append_all(&mut out, v);
                        proof {
                            lemma_splice_push_block(ivs.subrange(0, done), out0, cv);
                            assert(ivs.subrange(0, done).push(ScanItemView::Block(cv))
                                =~= ivs.subrange(0, done + 1));
                        }
                    },
                    None => {
                        proof {
                            assert(block_expansion(cv) =~= Seq::<KeybindingView>::empty());
                            lemma_splice_push_block(ivs.subrange(0, done), out0, cv);
                            assert(ivs.subrange(0, done).push(ScanItemView::Block(cv))
                                =~= ivs.subrange(0, done + 1));
                            assert(out0 + block_expansion(cv) =~= out0);
                        }
                    },
                }
            },
        }
    }
    proof {
        assert(ivs.subrange(0, ivs.len() as int) =~= ivs);
    }
    Ok(out)
}

/// Moves every binding of `more` onto the end of `out`, keeping order.
fn append_all(out: &mut Vec<Keybinding>, more: Vec<Keybinding>)
    ensures
        final(out)@ == old(out)@ + more@,
        kb_views(final(out)@) == kb_views(old(out)@) + kb_views(more@),
{
    let ghost base = out@;
    let ghost orig = more@;
    let mut rest = more;
    while rest.len() > 0
        invariant
            rest@.len() <= orig.len(),
            rest@ =~= orig.skip(orig.len() - rest@.len()),
            out@ =~= base + orig.subrange(0, orig.len() - rest@.len()),
        decreases rest@.len(),
    {
        let ghost done = orig.len() - rest@.len();
        let c = rest.remove(0);
        proof {
            assert(rest@ =~= orig.skip(done + 1));
            assert(c == orig[done]);
        }
        out.push(c);
        proof {
            assert(out@ =~= base + orig.subrange(0, done + 1));
        }
    }
    proof {
        assert(orig.subrange(0, orig.len() as int) =~= orig);
        assert(out@ =~= base + orig);
        assert forall|j: int| 0 <= j < kb_views(out@).len() implies kb_views(out@)[j] == (kb_views(
            base,
        ) + kb_views(orig))[j] by {
            assert(kb_views(out@)[j] == out@[j]@);
            if j < base.len() {
                assert(kb_views(base)[j] == base[j]@);
            } else {
                assert(kb_views(orig)[j - base.len()] == orig[j - base.len()]@);
            }
        }
        assert(kb_views(out@) =~= kb_views(base) + kb_views(orig));
    }
}


/// The contents a comment run contributes: each line trimmed, its leading
/// marker stripped.
pub open spec fn comment_contents(ls: Seq<Seq<char>>) -> Seq<Seq<char>> {
    ls.map_values(|l: Seq<char>| trim(l).drop_first())
}

/// Whether a line reads as a comment: its trimmed form starts with the
/// comment marker.
pub open spec fn is_comment_line(l: Seq<char>) -> bool {
    trim(l).len() > 0 && trim(l)[0] == '"'
}

/// Scanning a concatenation scans the first part, then the second from
/// where the first left off.
pub proof fn lemma_scan_from_append(
    st: ScanState,
    a: Seq<Seq<char>>,
    b: Seq<Seq<char>>,
    lineno: usize,
)
    requires
        lineno + a.len() <= usize::MAX,
    ensures
        scan_from(st, a + b, lineno) == (match scan_from(st, a, lineno) {
            Err(e) => Err(e),
            Ok(st2) => scan_from(st2, b, (lineno + a.len()) as usize),
        }),
    decreases a.len(),
{
    if a.len() == 0 {
        assert(a + b =~= b);
    } else {
        assert((a + b)[0] == a[0]);
        assert((a + b).drop_first() =~= a.drop_first() + b);
        match scan_step(st, a[0], lineno) {
            Err(_) => {},
            Ok(st2) => {
                lemma_scan_from_append(st2, a.drop_first(), b, (lineno + 1) as usize);
            },
        }
    }
}

/// One comment line accumulates its content and turns the mode to
/// in-comment; nothing is emitted.
proof fn lemma_scan_step_comment(st: ScanState, line: Seq<char>, lineno: usize)
    requires
        st.mode != ParseMode::InSecondaryBlock,
        is_comment_line(line),
    ensures
        scan_step(st, line, lineno) == Ok::<_, ParseError>(
            ScanState {
                mode: ParseMode::InComment,
                comments: st.comments.push(trim(line).drop_first()),
                block: st.block,
                block_line: st.block_line,
                items: st.items,
            },
        ),
{
    assert(trim(line)[0] == '"');
    assert(terminator()[0] == 'E');
    assert(trim(line) != terminator());
}

/// A run of comment lines accumulates exactly its contents, in order;
/// nothing is emitted along the way.
proof fn lemma_comment_run(st: ScanState, clines: Seq<Seq<char>>, lineno: usize)
    requires
        st.mode != ParseMode::InSecondaryBlock,
        clines.len() > 0,
        forall|i: int| 0 <= i < clines.len() ==> is_comment_line(#[trigger] clines[i]),
        lineno + clines.len() <= usize::MAX,
    ensures
        scan_from(st, clines, lineno) == Ok::<_, ParseError>(
            ScanState {
                mode: ParseMode::InComment,
                comments: st.comments + comment_contents(clines),
                block: st.block,
                block_line: st.block_line,
                items: st.items,
            },
        ),
    decreases clines.len(),
{
    lemma_scan_step_comment(st, clines[0], lineno);
    let st2 = ScanState {
        mode: ParseMode::InComment,
        comments: st.comments.push(trim(clines[0]).drop_first()),
        block: st.block,
        block_line: st.block_line,
        items: st.items,
    };
    if clines.len() == 1 {
        assert(clines.drop_first() =~= Seq::<Seq<char>>::empty());
        assert(scan_from(st2, clines.drop_first(), (lineno + 1) as usize) == Ok::<
            _,
            ParseError,
        >(st2));
        assert(comment_contents(clines)[0] == trim(clines[0]).drop_first());
        assert(st.comments + comment_contents(clines) =~= st.comments.push(
            trim(clines[0]).drop_first(),
        ));
    } else {
        let rest = clines.drop_first();
        assert forall|i: int| 0 <= i < rest.len() implies is_comment_line(
            #[trigger] rest[i],
        ) by {
            assert(rest[i] == clines[i + 1]);
        }
        lemma_comment_run(st2, rest, (lineno + 1) as usize);
        assert forall|i: int| 0 <= i < clines.len() implies #[trigger] comment_contents(
            clines,
        )[i] == trim(clines[i]).drop_first() by {}
        assert forall|i: int| 0 <= i < rest.len() implies #[trigger] comment_contents(rest)[i]
            == trim(clines[i + 1]).drop_first() by {
            assert(rest[i] == clines[i + 1]);
        }
        assert(st.comments + comment_contents(clines) =~= st2.comments + comment_contents(rest));
    }
}

/// A binding line emits exactly the grammar's captured groups as keymap
/// and command, and attaches the accumulated comments — joined by single
/// spaces — exactly when the scanner stands in comment mode.
pub proof fn lemma_binding_line_emits_captures(st: ScanState, line: Seq<char>, lineno: usize)
    requires
        st.mode != ParseMode::InSecondaryBlock,
        binding_parts(trim(line)) is Some,
    ensures
        scan_step(st, line, lineno) == Ok::<_, ParseError>(
            ScanState {
                mode: ParseMode::AfterBinding,
                comments: Seq::empty(),
                block: st.block,
                block_line: st.block_line,
                items: st.items.push(
                    ScanItemView::Binding(
                        KeybindingView {
                            root: Seq::empty(),
                            keymap: binding_parts(trim(line)).unwrap().0,
                            command: binding_parts(trim(line)).unwrap().1,
                            doc: if st.mode == ParseMode::InComment {
                                Some(
                                    KeybindingDocView {
                                        description: join_spaces(st.comments),
                                        examples: None,
                                    },
                                )
                            } else {
                                None
                            },
                        },
                    ),
                ),
            },
        ),
{
    let t = trim(line);
    crate::grammar::lemma_binding_parts_wf(t);
    assert(t.len() > 0);
    assert(terminator()[0] == 'E');
    if t == terminator() {
        assert(binding_parts(t) is None);
    }
    assert(t[0] != '"');
}

/// A comment block immediately followed by a binding line attaches
/// documentation equal to the comment lines — markers stripped — joined by
/// single spaces.
pub proof fn lemma_comment_block_attaches_doc(
    st: ScanState,
    clines: Seq<Seq<char>>,
    bline: Seq<char>,
    lineno: usize,
)
    requires
        st.mode != ParseMode::InSecondaryBlock,
        st.comments.len() == 0,
        clines.len() > 0,
        forall|i: int| 0 <= i < clines.len() ==> is_comment_line(#[trigger] clines[i]),
        binding_parts(trim(bline)) is Some,
        lineno + clines.len() + 1 <= usize::MAX,
    ensures
        scan_from(st, clines.push(bline), lineno) is Ok,
        scan_from(st, clines.push(bline), lineno).unwrap().items == st.items.push(
            ScanItemView::Binding(
                KeybindingView {
                    root: Seq::empty(),
                    keymap: binding_parts(trim(bline)).unwrap().0,
                    command: binding_parts(trim(bline)).unwrap().1,
                    doc: Some(
                        KeybindingDocView {
                            description: join_spaces(comment_contents(clines)),
                            examples: None,
                        },
                    ),
                },
            ),
        ),
{
    assert(clines.push(bline) =~= clines + seq![bline]);
    lemma_scan_from_append(st, clines, seq![bline], lineno);
    lemma_comment_run(st, clines, lineno);
    let st2 = scan_from(st, clines, lineno).unwrap();
    assert(st2.comments =~= comment_contents(clines));
    let n2 = (lineno + clines.len()) as usize;
    lemma_binding_line_emits_captures(st2, bline, n2);
    let st3 = scan_step(st2, bline, n2).unwrap();
    assert(seq![bline][0] == bline);
    assert(seq![bline].drop_first() =~= Seq::<Seq<char>>::empty());
    assert(scan_from(st3, Seq::<Seq<char>>::empty(), (n2 + 1) as usize) == Ok::<_, ParseError>(
        st3,
    ));
    assert(scan_from(st2, seq![bline], n2) == Ok::<_, ParseError>(st3));
    assert(scan_from(st, clines.push(bline), lineno) == Ok::<_, ParseError>(st3));
    assert(join_spaces(st2.comments) == join_spaces(comment_contents(clines)));
}

/// A comment block separated from the binding line by a blank line
/// attaches no documentation: the blank line clears the accumulator and
/// leaves comment mode, so the binding carries none.
pub proof fn lemma_blank_line_detaches_doc(
    st: ScanState,
    blank: Seq<char>,
    bline: Seq<char>,
    lineno: usize,
)
    requires
        st.mode != ParseMode::InSecondaryBlock,
        trim(blank).len() == 0,
        binding_parts(trim(bline)) is Some,
        lineno + 2 <= usize::MAX,
    ensures
        scan_from(st, seq![blank, bline], lineno) is Ok,
        scan_from(st, seq![blank, bline], lineno).unwrap().items == st.items.push(
            ScanItemView::Binding(
                KeybindingView {
                    root: Seq::empty(),
                    keymap: binding_parts(trim(bline)).unwrap().0,
                    command: binding_parts(trim(bline)).unwrap().1,
                    doc: None,
                },
            ),
        ),
{
    let ls = seq![blank, bline];
    assert(ls[0] == blank);
    assert(terminator().len() == 3);
    assert(trim(blank) != terminator());
    let st1 = ScanState {
        mode: ParseMode::Neutral,
        comments: Seq::empty(),
        block: st.block,
        block_line: st.block_line,
        items: st.items,
    };
    assert(scan_step(st, blank, lineno) == Ok::<_, ParseError>(st1));
    assert(ls.drop_first() =~= seq![bline]);
    let n2 = (lineno + 1) as usize;
    lemma_binding_line_emits_captures(st1, bline, n2);
    let st2 = scan_step(st1, bline, n2).unwrap();
    assert(seq![bline][0] == bline);
    assert(seq![bline].drop_first() =~= Seq::<Seq<char>>::empty());
    assert(scan_from(st2, Seq::<Seq<char>>::empty(), (n2 + 1) as usize) == Ok::<_, ParseError>(
        st2,
    ));
    assert(scan_from(st1, seq![bline], n2) == Ok::<_, ParseError>(st2));
    assert(scan_from(st, ls, lineno) == Ok::<_, ParseError>(st2));
}

} // verus!
