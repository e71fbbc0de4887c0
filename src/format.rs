use vstd::prelude::*;

use crate::config::{width_of, Config};
use crate::doc::{Doc, Tok};
use crate::render::{layout, render};
use crate::value::{elements_doc, frame, shown_count, write_container, write_frame, Value};

verus! {

/// The document of a whole result: its items inside one outer `{...}`
/// group, truncated to the configured limit.
pub open spec fn result_doc(items: Vec<Value>, cfg: Config) -> Seq<Tok> {
    let shown = shown_count(items@.len(), cfg.max_items);
    frame(
        seq!['{'],
        seq!['}'],
        elements_doc(items, 0, shown as int, cfg),
        items@.len(),
        shown,
        cfg.max_items,
        true,
    )
}

/// The text of a whole result.
pub open spec fn result_text(items: Vec<Value>, cfg: Config) -> Seq<char> {
    layout(result_doc(items, cfg), width_of(cfg), cfg.indent as int)
}

/// Renders a complete result set.
pub fn format_items(items: &Vec<Value>, cfg: &Config) -> (r: String)
    ensures
        r@ == result_text(*items, *cfg),
{
    proof {
        reveal_strlit("{");
        reveal_strlit("}");
    }
    let mut doc = Doc::new();
    write_container(&mut doc, "{", "}", items, cfg.max_items, true, cfg);
    assert("{"@ =~= seq!['{']);
    assert("}"@ =~= seq!['}']);
    assert(doc@ =~= result_doc(*items, *cfg));
    render(&doc, cfg.width(), cfg.indent)
}

/// Gathers the items of a result as they arrive, keeping only those that
/// will be shown.
pub struct ResultCollector {
    pub config: Config,
    /// The items kept so far, in order of arrival.
    pub kept: Vec<Value>,
    /// How many items arrived (saturating).
    pub seen: usize,
}

impl ResultCollector {
    /// Exactly the shown prefix is kept.
    pub open spec fn wf(&self) -> bool {
        self.kept@.len() == shown_count(self.seen as nat, self.config.max_items)
    }

    pub fn new(config: Config) -> (r: ResultCollector)
        ensures
            r.wf(),
            r.config == config,
            r.kept@.len() == 0,
            r.seen == 0,
    {
        ResultCollector { config, kept: Vec::new(), seen: 0 }
    }

    /// Takes the next item; it is dropped when the limit is reached.
    pub fn push(&mut self, item: Value)
        requires
            old(self).wf(),
        ensures
            final(self).wf(),
            final(self).config == old(self).config,
            final(self).seen == if old(self).seen < usize::MAX {
                old(self).seen + 1
            } else {
                old(self).seen as int
            },
            final(self).kept@ == if old(self).kept@.len() < shown_count(
                final(self).seen as nat,
                old(self).config.max_items,
            ) {
                old(self).kept@.push(item)
            } else {
                old(self).kept@
            },
    {
        if self.seen < usize::MAX {
            self.seen = self.seen + 1;
        }
        let limit = match self.config.max_items {
            None => self.seen,
            Some(k) => if self.seen <= k {
                self.seen
            } else if k == 0 {
                1
            } else {
                k
            },
        };
        if self.kept.len() < limit {
            self.kept.push(item);
        }
    }

    /// Renders what was gathered.
    pub fn finish(&self) -> (r: String)
        requires
            self.wf(),
        ensures
            r@ == layout(
                frame(
                    seq!['{'],
                    seq!['}'],
                    elements_doc(self.kept, 0, self.kept@.len() as int, self.config),
                    self.seen as nat,
                    self.kept@.len(),
                    self.config.max_items,
                    true,
                ),
                width_of(self.config),
                self.config.indent as int,
            ),
    {
        proof {
            reveal_strlit("{");
            reveal_strlit("}");
        }
        let mut doc = Doc::new();
        let shown = self.kept.len();
        write_frame(
            &mut doc,
            "{",
            "}",
            &self.kept,
            shown,
            self.seen,
            self.config.max_items,
            true,
            &self.config,
        );
        assert("{"@ =~= seq!['{']);
        assert("}"@ =~= seq!['}']);
        render(&doc, self.config.width(), self.config.indent)
    }
}

} // verus!
