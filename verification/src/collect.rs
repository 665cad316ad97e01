//! Accumulation of payload fields and the final output blob.
//!
//! A [`Collector`] owns the ordered fragments received so far and the
//! termination flag. One request at a time is handed to it as the header
//! lines read from a connection; the first line decides what happens.

use vstd::prelude::*;
use crate::request::{parse_target, split_fields, split_semi, str_eq, target_of, well_formed_line};

verus! {

/// The payload that ends the run.
pub open spec fn end_sentinel() -> Seq<char> {
    "END"@
}

/// What handling one request did, so the caller can report it.
pub enum Handled {
    /// The connection sent no line at all: nothing changed.
    Empty,
    /// The fields that were appended to the accumulated output.
    Stored(Vec<String>),
    /// The sentinel arrived: the run is over.
    Finished,
}

/// The accumulated output and the termination flag.
pub struct Collector {
    /// Every field received so far, in arrival order, duplicates preserved.
    pub output: Vec<String>,
    /// Set exactly when the sentinel payload has been seen.
    pub done: bool,
}

impl Collector {
    /// A fresh collector: nothing accumulated, not done.
    pub fn new() -> (c: Collector)
        ensures
            c.output.deep_view() == Seq::<Seq<char>>::empty(),
            !c.done,
    {
        let c = Collector { output: Vec::new(), done: false };
        proof {
            assert(c.output.deep_view() =~= Seq::<Seq<char>>::empty());
        }
        c
    }

    /// Handles one request, given the header lines read from a connection.
    ///
    /// Nothing happens on an empty connection; a malformed first line is an
    /// error (fatal to the caller); the sentinel sets the termination flag;
    /// any other well-formed request appends its semicolon-split fields, in
    /// order, to the accumulated output.
    pub fn handle_request(&mut self, lines: &Vec<String>) -> (r: Result<Handled, ()>)
        ensures
            r is Err <==> lines.deep_view().len() > 0 && !well_formed_line(lines.deep_view()[0]),
            r is Err ==> *final(self) == *old(self),
            lines.deep_view().len() == 0 ==> (r matches Ok(h) && h is Empty && *final(self)
                == *old(self)),
            ({
                let ls = lines.deep_view();
                ls.len() > 0 && well_formed_line(ls[0]) && target_of(ls[0]) == end_sentinel()
            }) ==> (r matches Ok(h) && h is Finished && final(self).done && final(self).output
                == old(self).output),
            ({
                let ls = lines.deep_view();
                ls.len() > 0 && well_formed_line(ls[0]) && target_of(ls[0]) != end_sentinel()
            }) ==> {
                let t = target_of(lines.deep_view()[0]);
                &&& r matches Ok(h) && h matches Handled::Stored(fields) && fields.deep_view()
                    == split_semi(t)
                &&& final(self).output.deep_view() == old(self).output.deep_view() + split_semi(t)
                &&& final(self).done == old(self).done
            },
    {
        if lines.len() == 0 {
            return Ok(Handled::Empty);
        }
        let line = &lines[0];
        match parse_target(line.as_str()) {
            None => Err(()),
            Some(target) => {
                if str_eq(target.as_str(), "END") {
                    self.done = true;
                    Ok(Handled::Finished)
                } else {
                    let fields = split_fields(target.as_str());
                    let ghost appended = fields.deep_view();
                    let ghost start = self.output.deep_view();
                    let mut k: usize = 0;
                    while k < fields.len()
                        invariant
                            k <= fields.len(),
                            fields.deep_view() == appended,
                            self.output.deep_view() == start + appended.subrange(0, k as int),
                            self.done == old(self).done,
                        decreases fields.len() - k,
                    {
                        let ghost before = self.output.deep_view();
                        self.output.push(fields[k].clone());
                        proof {
                            assert(self.output.deep_view() =~= before + seq![appended[k as int]]);
                            assert(before + seq![appended[k as int]] =~= start + appended.subrange(
                                0,
                                k + 1,
                            ));
                        }
                        k += 1;
                    }
                    proof {
                        assert(appended.subrange(0, appended.len() as int) =~= appended);
                    }
                    Ok(Handled::Stored(fields))
                }
            },
        }
    }
}

/// The output blob: every accumulated fragment preceded by one newline, in
/// order; empty exactly when nothing was accumulated.
pub open spec fn joined(frags: Seq<Seq<char>>) -> Seq<char>
    decreases frags.len(),
{
    if frags.len() == 0 {
        Seq::empty()
    } else {
        joined(frags.drop_last()) + seq!['\n'] + frags.last()
    }
}

/// Joins the accumulated fragments into the blob written at shutdown.
pub fn join_output(output: &Vec<String>) -> (r: String)
    ensures
        r@ == joined(output.deep_view()),
{
    let mut r = String::new();
    proof {
        assert(r@ =~= joined(output.deep_view().subrange(0, 0)));
    }
    let mut i: usize = 0;
    while i < output.len()
        invariant
            i <= output.len(),
            r@ == joined(output.deep_view().subrange(0, i as int)),
        decreases output.len() - i,
    {
        r.append("\n");
        r.append(output[i].as_str());
        proof {
            reveal_strlit("\n");
            let views = output.deep_view();
            assert(views.subrange(0, i + 1).drop_last() =~= views.subrange(0, i as int));
            assert("\n"@ =~= seq!['\n']);
            assert(r@ =~= joined(views.subrange(0, i + 1)));
        }
        i += 1;
    }
    proof {
        assert(output.deep_view().subrange(0, output.deep_view().len() as int) =~= output.deep_view());
    }
    r
}

} // verus!
