use vstd::prelude::*;

use crate::errors::TriangulationError;
use crate::outputs::{FanBuilder, FanFormat};

verus! {

/// The error type of triangulating into the format `FB`.
pub type FormatError<Index, FB> = TriangulationError<
    <<FB as FanFormat<Index>>::Builder as FanBuilder<Index>>::Error,
>;

/// Where the builder of fans stands: the format is initialized with the
/// first fan; after a builder error it is kept so that it can be told of
/// the failure.
pub enum BuilderPhase<Index, FB: FanFormat<Index>> {
    /// No fan has been produced yet
    Uninitialized(FB),
    /// The builder has accepted every fan so far
    Initialized(FB::Builder),
    /// The builder reported an error (the builder is kept when it exists)
    Error(Option<FB::Builder>),
}

/// The builder of fans during triangulation, with a record of every fan
/// handed to it: each fan is its vertices, the root first, so that fan
/// `f` stands for the triangles `(f[0], f[k], f[k + 1])`.
pub struct FanBuilderState<Index, FB: FanFormat<Index>> {
    phase: BuilderPhase<Index, FB>,
    log: Ghost<Seq<Seq<Index>>>,
}

impl<Index, FB: FanFormat<Index>> FanBuilderState<Index, FB> {
    /// Once the builder exists, it has received a fan.
    #[verifier::type_invariant]
    spec fn started(self) -> bool {
        &&& self.phase is Initialized ==> self.log@.len() > 0
        &&& self.phase is Uninitialized ==> self.log@.len() == 0
    }

    /// The builder exists and holds exactly the fans of [Self::log].
    pub open spec fn builder_matches_log(&self) -> bool {
        self.phase() matches BuilderPhase::Initialized(b) && b.received_fans() == self.log()
    }

    /// Where the builder stands.
    pub closed spec fn phase(&self) -> BuilderPhase<Index, FB> {
        self.phase
    }

    /// The fans handed to the builder so far, oldest first, each as its
    /// vertices (a fan being extended holds the vertices given so far).
    pub closed spec fn log(&self) -> Seq<Seq<Index>> {
        self.log@
    }

    /// A builder of fans in `format` that has received nothing.
    pub fn new(format: FB) -> (r: Self)
        ensures
            r.phase() == BuilderPhase::<Index, FB>::Uninitialized(format),
            r.log() == Seq::<Seq<Index>>::empty(),
    {
        FanBuilderState { phase: BuilderPhase::Uninitialized(format), log: Ghost(Seq::empty()) }
    }

    /// Starts a new fan with the given triangle: the first fan initializes
    /// the format, later ones go to the builder.
    pub fn new_fan(&mut self, vi0: Index, vi1: Index, vi2: Index) -> (r: Result<(), FormatError<Index, FB>>)
        ensures
            !(old(self).phase() is Error) ==> final(self).log() == old(self).log().push(seq![vi0, vi1, vi2]),
            old(self).phase() is Error ==> final(self).log() == old(self).log(),
            old(self).phase() matches BuilderPhase::Uninitialized(f) ==> {
                &&& r is Ok ==> final(self).phase() is Initialized
                &&& r is Err ==> (final(self).phase() matches BuilderPhase::Error(None))
                &&& exists|ri: Result<FB::Builder, <FB::Builder as FanBuilder<Index>>::Error>|
                    #![trigger call_ensures(FB::initialize, (f, vi0, vi1, vi2), ri)]
                    call_ensures(FB::initialize, (f, vi0, vi1, vi2), ri) && match ri {
                        Ok(b) => r is Ok && final(self).phase() == BuilderPhase::<Index, FB>::Initialized(b),
                        Err(e) => r == Err::<(), FormatError<Index, FB>>(TriangulationError::FanBuilder(e)),
                    }
            },
            old(self).phase() is Initialized ==> {
                &&& r is Ok ==> final(self).phase() is Initialized
                &&& <FB::Builder as FanBuilder<Index>>::records_fans() && r is Ok ==> final(self).phase()->Initialized_0.received_fans() == old(self).phase()->Initialized_0.received_fans().push(seq![vi0, vi1, vi2])
                &&& r is Err ==> (final(self).phase() matches BuilderPhase::Error(Some(_)) && r matches Err(
                    TriangulationError::FanBuilder(_),
                ))
            },
            <FB::Builder as FanBuilder<Index>>::records_fans() && r is Ok && (old(self).phase() is Uninitialized
                || old(self).builder_matches_log()) ==> final(self).builder_matches_log(),
            old(self).phase() is Error ==> {
                &&& final(self).phase() matches BuilderPhase::Error(None)
                &&& r matches Err(TriangulationError::InternalError(_))
            },
    {
        proof {
            use_type_invariant(&*self);
        }
        let ghost log0 = self.log@;
        let mut phase = BuilderPhase::Error(None);
        std::mem::swap(&mut self.phase, &mut phase);
        match phase {
            BuilderPhase::Initialized(mut fb) => {
                self.log = Ghost(log0.push(seq![vi0, vi1, vi2]));
                match fb.new_fan(vi0, vi1, vi2) {
                    Ok(()) => {
                        self.phase = BuilderPhase::Initialized(fb);
                        Ok(())
                    },
                    Err(e) => {
                        self.phase = BuilderPhase::Error(Some(fb));
                        Err(TriangulationError::from_builder(e))
                    },
                }
            },
            BuilderPhase::Uninitialized(f) => {
                self.log = Ghost(log0.push(seq![vi0, vi1, vi2]));
                let ghost fg = f;
                let res = f.initialize(vi0, vi1, vi2);
                assert(call_ensures(FB::initialize, (fg, vi0, vi1, vi2), res));
                match res {
                    Ok(fb) => {
                        assert(log0.push(seq![vi0, vi1, vi2]) =~= seq![seq![vi0, vi1, vi2]]);
                        self.phase = BuilderPhase::Initialized(fb);
                        Ok(())
                    },
                    Err(e) => Err(TriangulationError::from_builder(e)),
                }
            },
            BuilderPhase::Error(_) => Err(TriangulationError::internal("fan builder used after an error")),
        }
    }

    /// Extends the current fan with a triangle through `vi`.
    pub fn extend_fan(&mut self, vi: Index) -> (r: Result<(), FormatError<Index, FB>>)
        ensures
            old(self).phase() is Initialized ==> {
                &&& final(self).phase() is Initialized
                &&& final(self).log() == old(self).log().update(
                    old(self).log().len() - 1,
                    old(self).log().last().push(vi),
                )
                &&& old(self).log().len() > 0
                &&& <FB::Builder as FanBuilder<Index>>::records_fans() && r is Ok && old(self).phase()->Initialized_0.received_fans().len() > 0
                    ==> final(self).phase()->Initialized_0.received_fans() == old(self).phase()->Initialized_0.received_fans().update(
                    old(self).phase()->Initialized_0.received_fans().len() - 1,
                    old(self).phase()->Initialized_0.received_fans().last().push(vi),
                )
                &&& r is Err ==> r matches Err(TriangulationError::FanBuilder(_))
            },
            <FB::Builder as FanBuilder<Index>>::records_fans() && r is Ok && old(self).builder_matches_log()
                ==> final(self).builder_matches_log(),
            !(old(self).phase() is Initialized) ==> {
                &&& final(self).phase() == old(self).phase()
                &&& final(self).log() == old(self).log()
                &&& r matches Err(TriangulationError::InternalError(_))
            },
    {
        proof {
            use_type_invariant(&*self);
        }
        let ghost log0 = self.log@;
        let mut phase = BuilderPhase::Error(None);
        std::mem::swap(&mut self.phase, &mut phase);
        match phase {
            BuilderPhase::Initialized(mut fb) => {
                let res = fb.extend_fan(vi);
                self.log = Ghost(log0.update(log0.len() - 1, log0.last().push(vi)));
                self.phase = BuilderPhase::Initialized(fb);
                match res {
                    Ok(()) => Ok(()),
                    Err(e) => Err(TriangulationError::from_builder(e)),
                }
            },
            other => {
                self.phase = other;
                Err(TriangulationError::internal("fan extended before it was started"))
            },
        }
    }

    /// Ends triangulation with the outcome `result`: on success the
    /// builder builds the output; on failure a builder that exists is
    /// told of the error, and the error is returned.
    pub fn complete(self, result: Result<(), FormatError<Index, FB>>) -> (r: Result<
        <FB::Builder as FanBuilder<Index>>::Output,
        FormatError<Index, FB>,
    >)
        ensures
            self.phase() is Initialized && result is Ok ==> exists|
                rb: Result<<FB::Builder as FanBuilder<Index>>::Output, <FB::Builder as FanBuilder<Index>>::Error>,
            |
                #![trigger call_ensures(<FB::Builder as FanBuilder<Index>>::build, (self.phase()->Initialized_0,), rb)]
                call_ensures(<FB::Builder as FanBuilder<Index>>::build, (self.phase()->Initialized_0,), rb) && match rb {
                    Ok(o) => r == Ok::<<FB::Builder as FanBuilder<Index>>::Output, FormatError<Index, FB>>(o),
                    Err(e) => r == Err::<<FB::Builder as FanBuilder<Index>>::Output, FormatError<Index, FB>>(
                        TriangulationError::FanBuilder(e),
                    ),
                },
            self.phase() is Uninitialized ==> r == Err::<
                <FB::Builder as FanBuilder<Index>>::Output,
                FormatError<Index, FB>,
            >(
                match result {
                    Err(e) => e,
                    Ok(()) => TriangulationError::NoVertices,
                },
            ),
            (!(self.phase() is Uninitialized) && result is Err) ==> r == Err::<
                <FB::Builder as FanBuilder<Index>>::Output,
                FormatError<Index, FB>,
            >(result->Err_0),
            self.phase() is Initialized && result is Err ==> call_ensures(
                <FB::Builder as FanBuilder<Index>>::fail,
                (self.phase()->Initialized_0, &result->Err_0),
                (),
            ),
            self.phase() matches BuilderPhase::Error(Some(_)) && result is Err ==> call_ensures(
                <FB::Builder as FanBuilder<Index>>::fail,
                (self.phase()->Error_0->Some_0, &result->Err_0),
                (),
            ),
            (self.phase() is Error && result is Ok) ==> r matches Err(TriangulationError::InternalError(_)),
    {
        match (self.phase, result) {
            (BuilderPhase::Initialized(fb), Ok(())) => {
                let ghost bg = fb;
                let res = fb.build();
                assert(call_ensures(<FB::Builder as FanBuilder<Index>>::build, (bg,), res));
                match res {
                    Ok(o) => Ok(o),
                    Err(e) => Err(TriangulationError::from_builder(e)),
                }
            },
            (BuilderPhase::Uninitialized(_), Ok(())) => Err(TriangulationError::NoVertices),
            (BuilderPhase::Uninitialized(_), Err(e)) => Err(e),
            (BuilderPhase::Error(None), Err(e)) => Err(e),
            (BuilderPhase::Initialized(fb), Err(e)) => {
                fb.fail(&e);
                Err(e)
            },
            (BuilderPhase::Error(Some(fb)), Err(e)) => {
                fb.fail(&e);
                Err(e)
            },
            (BuilderPhase::Error(fb), Ok(())) => {
                let err = TriangulationError::internal("Unknown error");
                match fb {
                    Some(fb) => fb.fail(&err),
                    None => {},
                }
                Err(err)
            },
        }
    }
}

} // verus!
