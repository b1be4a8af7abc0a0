//! The engine: a server and the state of the stream that plays it.

use vstd::prelude::*;
use crate::audio_server::{advance_all, evict, first_done, mix, AudioError, AudioServer};
use crate::sample::Sample;

verus! {

/// An audio server with the life of its output stream: stopped at first,
/// running between a `start` that succeeds and `stop`.
pub struct Engine {
    audio_server: AudioServer,
    running: bool,
}

impl Engine {
    /// The registry that producers push to and release from.
    pub closed spec fn server(&self) -> AudioServer {
        self.audio_server
    }

    /// Whether the stream is running.
    pub closed spec fn running(&self) -> bool {
        self.running
    }

    /// An engine around `audio_server`, not yet started.
    pub fn new(audio_server: AudioServer) -> (engine: Engine)
        ensures
            engine.server() == audio_server,
            !engine.running(),
    {
        Engine { audio_server, running: false }
    }

    /// Takes note of how starting the output stream went: whether the
    /// stream was built, and whether it then began to play.
    ///
    /// The engine runs from here on exactly if both succeeded. Otherwise
    /// the start has failed for good: the engine is stopped, so that no
    /// mixing pass is made, and the failure is returned. The registry is
    /// left as it is either way.
    pub fn start(&mut self, built: bool, playing: bool) -> (started: Result<(), AudioError>)
        ensures
            started is Ok <==> built && playing,
            started is Err ==> started->Err_0 is StreamBuildFailure,
            final(self).running() == (built && playing),
            final(self).server() == old(self).server(),
    {
        self.running = built && playing;
        if self.running {
            Ok(())
        } else {
            Err(AudioError::StreamBuildFailure)
        }
    }

    /// Stops the stream; the voices stay where they are and sound on when
    /// the stream is started again.
    pub fn stop(&mut self)
        ensures
            !final(self).running(),
            final(self).server() == old(self).server(),
    {
        self.running = false;
    }

    /// Whether the stream is running.
    pub fn is_running(&self) -> (running: bool)
        ensures
            running == self.running(),
    {
        self.running
    }

    /// The server, to look at.
    pub fn audio_server(&self) -> (server: &AudioServer)
        ensures
            *server == self.server(),
    {
        &self.audio_server
    }

    /// The server, to push voices to and to release them from. The stream's
    /// state is out of its reach.
    pub fn audio_server_mut(&mut self) -> (server: &mut AudioServer)
        ensures
            *server == old(self).server(),
            final(self).server() == *final(server),
            final(self).running() == old(self).running(),
    {
        &mut self.audio_server
    }

    /// What the backend's callback asks for. A running engine makes one
    /// mixing pass over its server's registry. A stopped engine leaves every
    /// voice as it is and hands out silence.
    pub fn fill(&mut self, buffer: &mut [Sample])
        requires
            old(self).server().wf(),
        ensures
            final(self).running() == old(self).running(),
            final(self).server().wf(),
            final(buffer)@.len() == old(buffer)@.len(),
            old(self).running() ==> {
                &&& final(self).server().voices() == advance_all(
                    evict(
                        old(self).server().voices(),
                        first_done(old(self).server().voices()),
                    ),
                    old(buffer)@.len(),
                )
                &&& final(self).server().handles() == evict(
                    old(self).server().handles(),
                    first_done(old(self).server().voices()),
                )
                &&& final(self).server().next_handle() == old(self).server().next_handle()
                &&& final(self).server().stream_config() == old(self).server().stream_config()
                &&& forall|t: int|
                    0 <= t < old(buffer)@.len() ==> #[trigger] final(buffer)@[t] == mix(
                        evict(
                            old(self).server().voices(),
                            first_done(old(self).server().voices()),
                        ),
                        t as nat,
                    )
            },
            !old(self).running() ==> {
                &&& final(self).server() == old(self).server()
                &&& forall|t: int| 0 <= t < old(buffer)@.len() ==> #[trigger] final(buffer)@[t] == 0
            },
    {
        if self.running {
            self.audio_server.fill(buffer);
        } else {
            let n: usize = buffer.len();
            let mut t: usize = 0;
            while t < n
                invariant
                    t <= n,
                    n == buffer@.len(),
                    forall|u: int| 0 <= u < t ==> buffer@[u] == 0,
                decreases n - t,
            {
                buffer[t] = 0;
                t = t + 1;
            }
        }
    }
}

} // verus!
