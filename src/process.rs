use crate::Error;
use vstd::prelude::*;

verus! {

/// The input and output handles of a process that was spawned once. Each
/// handle can be claimed at most once: a second claim fails instead of
/// handing out the same handle again.
#[derive(Debug)]
pub struct ChildBuilder<I, O> {
    stdin: Option<I>,
    stdout: Option<O>,
}

impl<I, O> ChildBuilder<I, O> {
    /// The input handle, while it is unclaimed.
    pub closed spec fn stdin(&self) -> Option<I> {
        self.stdin
    }

    /// The output handle, while it is unclaimed.
    pub closed spec fn stdout(&self) -> Option<O> {
        self.stdout
    }

    /// What claiming the output handle gives.
    pub open spec fn reader_result(&self) -> Result<O, Error> {
        match self.stdout() {
            Some(h) => Ok(h),
            None => Err(Error::NoStdout),
        }
    }

    /// What claiming the input handle gives.
    pub open spec fn writer_result(&self) -> Result<I, Error> {
        match self.stdin() {
            Some(h) => Ok(h),
            None => Err(Error::NoStdin),
        }
    }

    /// Holds the handles of a freshly spawned process.
    pub fn new(stdin: Option<I>, stdout: Option<O>) -> (r: Self)
        ensures
            r.stdin() == stdin,
            r.stdout() == stdout,
    {
        ChildBuilder { stdin, stdout }
    }

    /// Claims the output handle; fails if it was claimed before.
    pub fn reader(&mut self) -> (r: Result<O, Error>)
        ensures
            r == old(self).reader_result(),
            final(self).stdout() is None,
            final(self).stdin() == old(self).stdin(),
    {
        match self.stdout.take() {
            Some(h) => Ok(h),
            None => Err(Error::NoStdout),
        }
    }

    /// Claims the input handle; fails if it was claimed before.
    pub fn writer(&mut self) -> (r: Result<I, Error>)
        ensures
            r == old(self).writer_result(),
            final(self).stdin() is None,
            final(self).stdout() == old(self).stdout(),
    {
        match self.stdin.take() {
            Some(h) => Ok(h),
            None => Err(Error::NoStdin),
        }
    }
}

/// Once the output handle has been claimed, by a claim that succeeded or
/// not, every further claim fails with [`Error::NoStdout`].
pub proof fn lemma_stdout_claimed_once<I, O>(after: ChildBuilder<I, O>)
    requires
        after.stdout() is None,
    ensures
        after.reader_result() == Err::<O, Error>(Error::NoStdout),
{
}

/// Once the input handle has been claimed, every further claim fails with
/// [`Error::NoStdin`].
pub proof fn lemma_stdin_claimed_once<I, O>(after: ChildBuilder<I, O>)
    requires
        after.stdin() is None,
    ensures
        after.writer_result() == Err::<I, Error>(Error::NoStdin),
{
}

} // verus!
