//! Leaving: what the end of a process does to the channels of its
//! connections.

use vstd::prelude::*;
use crate::flow::channel::{channel_views, channels_wf, Channel, ChannelView};
use crate::flow::port::Direction;
use crate::flow::process::{Process, ProcessView};

verus! {

impl ProcessView {
    /// The channels after the first `n` of the connections `edges` have been
    /// shut from one end: closed, where the sender goes, or abandoned and
    /// emptied, where the receiver goes.
    pub open spec fn shut_edges(
        edges: Seq<usize>,
        n: nat,
        closing: bool,
        channels: Seq<ChannelView>,
    ) -> Seq<ChannelView>
        decreases n,
    {
        if n == 0 || n > edges.len() {
            channels
        } else {
            let before = Self::shut_edges(edges, (n - 1) as nat, closing, channels);
            let c = edges[n - 1] as int;
            if c < before.len() {
                before.update(
                    c,
                    if closing {
                        before[c].after_close()
                    } else {
                        before[c].after_abandon()
                    },
                )
            } else {
                before
            }
        }
    }

    /// The channels after the process has gone from all connections of its
    /// first `n` ports.
    pub open spec fn retire_ports(self, n: nat, channels: Seq<ChannelView>) -> Seq<ChannelView>
        decreases n,
    {
        if n == 0 || n > self.ports.len() {
            channels
        } else {
            let before = self.retire_ports((n - 1) as nat, channels);
            let port = self.ports[n - 1];
            Self::shut_edges(port.edges, port.edges.len(), port.direction == Direction::Out, before)
        }
    }

    /// The channels after the process has gone: every connection of its
    /// out-ports is closed, every connection of its in-ports abandoned and
    /// emptied, in the order of the ports and of their connections.
    pub open spec fn retire(self, channels: Seq<ChannelView>) -> Seq<ChannelView> {
        self.retire_ports(self.ports.len(), channels)
    }

    /// The channel `c` carries a connection of one of the first `n` ports,
    /// at a port of this direction.
    pub open spec fn attached_among(self, direction: Direction, c: int, n: nat) -> bool {
        exists|port: int, slot: int|
            port < n && self.is_edge(direction, port, slot) && #[trigger] self.ports[port].edges[slot]
                == c
    }

    /// The channel `c` carries a connection of a port of this direction.
    pub open spec fn attached(self, direction: Direction, c: int) -> bool {
        self.attached_among(direction, c, self.ports.len())
    }

    /// The channels after the connections of the first `n` ports that are
    /// in-ports have been closed.
    pub open spec fn seal_ports(self, n: nat, channels: Seq<ChannelView>) -> Seq<ChannelView>
        decreases n,
    {
        if n == 0 || n > self.ports.len() {
            channels
        } else {
            let before = self.seal_ports((n - 1) as nat, channels);
            let port = self.ports[n - 1];
            if port.direction == Direction::In {
                Self::shut_edges(port.edges, port.edges.len(), true, before)
            } else {
                before
            }
        }
    }

    /// The channels after every connection of the in-ports has been closed.
    /// For the mother process of a subnetwork these are the connections
    /// that bring packets in from outside.
    pub open spec fn seal(self, channels: Seq<ChannelView>) -> Seq<ChannelView> {
        self.seal_ports(self.ports.len(), channels)
    }
}

impl Process {
    /// Shuts the connections of the port at `p` in `channels` from one end.
    fn shut(&self, p: usize, closing: bool, channels: &mut Vec<Channel>)
        requires
            p < self@.ports.len(),
            channels_wf(channel_views(old(channels)@)),
        ensures
            channel_views(final(channels)@) == ProcessView::shut_edges(
                self@.ports[p as int].edges,
                self@.ports[p as int].edges.len(),
                closing,
                channel_views(old(channels)@),
            ),
            channels_wf(channel_views(final(channels)@)),
            final(channels)@.len() == old(channels)@.len(),
    {
        let ghost start = channel_views(channels@);
        let ghost edges = self@.ports[p as int].edges;
        let n: usize = self.ports[p].degree();
        let mut k: usize = 0;
        while k < n
            invariant
                p < self.ports@.len(),
                edges == self@.ports[p as int].edges,
                n == edges.len(),
                k <= n,
                channels@.len() == start.len(),
                channels_wf(channel_views(channels@)),
                channel_views(channels@) == ProcessView::shut_edges(edges, k as nat, closing, start),
            decreases n - k,
        {
            let c: usize = self.ports[p].edge(k);
            let ghost before = channel_views(channels@);
            if c < channels.len() {
                assert(before[c as int].wf());
                if closing {
                    channels[c].close();
                    assert(channel_views(channels@) =~= before.update(
                        c as int,
                        before[c as int].after_close(),
                    ));
                } else {
                    channels[c].abandon();
                    assert(channel_views(channels@) =~= before.update(
                        c as int,
                        before[c as int].after_abandon(),
                    ));
                }
            }
            k += 1;
        }
    }

    /// Takes the process out of `channels`: closes the connections of its
    /// out-ports, abandons those of its in-ports.
    pub fn retire(&self, channels: &mut Vec<Channel>)
        requires
            channels_wf(channel_views(old(channels)@)),
        ensures
            channel_views(final(channels)@) == self@.retire(channel_views(old(channels)@)),
            channels_wf(channel_views(final(channels)@)),
            final(channels)@.len() == old(channels)@.len(),
    {
        let ghost cv = channel_views(channels@);
        let mut p: usize = 0;
        while p < self.ports.len()
            invariant
                p <= self.ports@.len(),
                channels@.len() == cv.len(),
                channels_wf(channel_views(channels@)),
                channel_views(channels@) == self@.retire_ports(p as nat, cv),
            decreases self.ports@.len() - p,
        {
            let closing: bool = self.ports[p].direction() == Direction::Out;
            self.shut(p, closing, channels);
            p += 1;
        }
    }

    /// Closes the connections of the in-ports in `channels`.
    pub fn seal(&self, channels: &mut Vec<Channel>)
        requires
            channels_wf(channel_views(old(channels)@)),
        ensures
            channel_views(final(channels)@) == self@.seal(channel_views(old(channels)@)),
            channels_wf(channel_views(final(channels)@)),
            final(channels)@.len() == old(channels)@.len(),
    {
        let ghost cv = channel_views(channels@);
        let mut p: usize = 0;
        while p < self.ports.len()
            invariant
                p <= self.ports@.len(),
                channels@.len() == cv.len(),
                channels_wf(channel_views(channels@)),
                channel_views(channels@) == self@.seal_ports(p as nat, cv),
            decreases self.ports@.len() - p,
        {
            if self.ports[p].direction() == Direction::In {
                self.shut(p, true, channels);
            }
            p += 1;
        }
    }
}

/// A channel after the process at one end of it, or at both, has gone.
pub open spec fn retired(channel: ChannelView, sender_gone: bool, receiver_gone: bool) -> ChannelView {
    ChannelView {
        closed: channel.closed || sender_gone,
        abandoned: channel.abandoned || receiver_gone,
        queue: if receiver_gone {
            Seq::empty()
        } else {
            channel.queue
        },
        ..channel
    }
}

/// What shutting connections does to one channel: it is shut if one of
/// the connections goes over it, and untouched otherwise.
pub proof fn lemma_shut_edges(
    edges: Seq<usize>,
    n: nat,
    closing: bool,
    channels: Seq<ChannelView>,
    c: int,
)
    requires
        n <= edges.len(),
        0 <= c < channels.len(),
    ensures
        ProcessView::shut_edges(edges, n, closing, channels).len() == channels.len(),
        ProcessView::shut_edges(edges, n, closing, channels)[c] == if exists|k: int|
            0 <= k < n && #[trigger] edges[k] == c {
            retired(channels[c], closing, !closing)
        } else {
            channels[c]
        },
    decreases n,
{
    if n > 0 {
        let m = (n - 1) as nat;
        lemma_shut_edges(edges, m, closing, channels, c);
        let before = ProcessView::shut_edges(edges, m, closing, channels);
        let after = ProcessView::shut_edges(edges, n, closing, channels);
        let touched_before = exists|k: int| 0 <= k < m && #[trigger] edges[k] == c;
        let touched = exists|k: int| 0 <= k < n && #[trigger] edges[k] == c;
        if edges[n - 1] == c {
            assert(touched);
            assert(after[c].queue =~= retired(channels[c], closing, !closing).queue);
        } else {
            if touched {
                let k = choose|k: int| 0 <= k < n && #[trigger] edges[k] == c;
                assert(k < m);
                assert(touched_before);
            }
        }
    }
}

/// What the end of a process does to one channel. The channels over which
/// the process sent are closed, those from which it received are abandoned
/// and emptied, and every other channel is as it was.
pub proof fn lemma_retire(p: ProcessView, channels: Seq<ChannelView>, c: int)
    requires
        0 <= c < channels.len(),
    ensures
        p.retire(channels).len() == channels.len(),
        p.retire(channels)[c] == retired(
            channels[c],
            p.attached(Direction::Out, c),
            p.attached(Direction::In, c),
        ),
{
    lemma_retire_ports(p, p.ports.len(), channels, c);
}

/// What the end of a process does to one channel, for the first `n` ports.
pub proof fn lemma_retire_ports(p: ProcessView, n: nat, channels: Seq<ChannelView>, c: int)
    requires
        n <= p.ports.len(),
        0 <= c < channels.len(),
    ensures
        p.retire_ports(n, channels).len() == channels.len(),
        p.retire_ports(n, channels)[c] == retired(
            channels[c],
            p.attached_among(Direction::Out, c, n),
            p.attached_among(Direction::In, c, n),
        ),
    decreases n,
{
    if n == 0 {
        assert(p.retire_ports(n, channels)[c].queue =~= channels[c].queue);
    } else {
        let m = (n - 1) as nat;
        lemma_retire_ports(p, m, channels, c);
        let before = p.retire_ports(m, channels);
        let port = p.ports[n - 1];
        let closing = port.direction == Direction::Out;
        lemma_shut_edges(port.edges, port.edges.len(), closing, before, c);
        let touched = exists|k: int| 0 <= k < port.edges.len() && #[trigger] port.edges[k] == c;
        let out_before = p.attached_among(Direction::Out, c, m);
        let in_before = p.attached_among(Direction::In, c, m);
        let out_after = p.attached_among(Direction::Out, c, n);
        let in_after = p.attached_among(Direction::In, c, n);
        assert(out_after == (out_before || (closing && touched))) by {
            lemma_attached_step(p, Direction::Out, c, n);
        }
        assert(in_after == (in_before || (!closing && touched))) by {
            lemma_attached_step(p, Direction::In, c, n);
        }
        assert(p.retire_ports(n, channels)[c].queue =~= retired(
            channels[c],
            out_after,
            in_after,
        ).queue);
    }
}

/// A channel carries a connection of one of the first `n` ports if it
/// carries one of the ports before the last of them, or one of that port.
pub proof fn lemma_attached_step(p: ProcessView, direction: Direction, c: int, n: nat)
    requires
        0 < n <= p.ports.len(),
    ensures
        p.attached_among(direction, c, n) == (p.attached_among(direction, c, (n - 1) as nat) || (
        p.ports[n - 1].direction == direction && exists|k: int|
            0 <= k < p.ports[n - 1].edges.len() && #[trigger] p.ports[n - 1].edges[k] == c)),
{
    let m = (n - 1) as nat;
    let last = p.ports[n - 1];
    if p.attached_among(direction, c, n) {
        let (port, slot) = choose|port: int, slot: int|
            port < n && p.is_edge(direction, port, slot) && #[trigger] p.ports[port].edges[slot]
                == c;
        if port < m {
            assert(p.is_edge(direction, port, slot) && p.ports[port].edges[slot] == c);
            assert(p.attached_among(direction, c, m));
        } else {
            assert(port == n - 1);
            assert(last.edges[slot] == c);
        }
    }
    if p.attached_among(direction, c, m) {
        let (port, slot) = choose|port: int, slot: int|
            port < m && p.is_edge(direction, port, slot) && #[trigger] p.ports[port].edges[slot]
                == c;
        assert(port < n && p.is_edge(direction, port, slot) && p.ports[port].edges[slot] == c);
    }
    if last.direction == direction && exists|k: int|
        0 <= k < last.edges.len() && #[trigger] last.edges[k] == c {
        let k = choose|k: int| 0 <= k < last.edges.len() && #[trigger] last.edges[k] == c;
        assert(p.is_edge(direction, n - 1, k) && p.ports[n - 1].edges[k] == c);
    }
}

/// Shutting connections leaves the number of channels as it is.
pub proof fn lemma_shut_len(edges: Seq<usize>, n: nat, closing: bool, channels: Seq<ChannelView>)
    ensures
        ProcessView::shut_edges(edges, n, closing, channels).len() == channels.len(),
    decreases n,
{
    if n > 0 && n <= edges.len() {
        lemma_shut_len(edges, (n - 1) as nat, closing, channels);
    }
}

/// The end of a process leaves the number of channels as it is, for the
/// first `n` ports.
pub proof fn lemma_retire_ports_len(p: ProcessView, n: nat, channels: Seq<ChannelView>)
    ensures
        p.retire_ports(n, channels).len() == channels.len(),
    decreases n,
{
    if n > 0 && n <= p.ports.len() {
        lemma_retire_ports_len(p, (n - 1) as nat, channels);
        let port = p.ports[n - 1];
        lemma_shut_len(
            port.edges,
            port.edges.len(),
            port.direction == Direction::Out,
            p.retire_ports((n - 1) as nat, channels),
        );
    }
}

/// The end of a process leaves the number of channels as it is.
pub proof fn lemma_retire_len(p: ProcessView, channels: Seq<ChannelView>)
    ensures
        p.retire(channels).len() == channels.len(),
{
    lemma_retire_ports_len(p, p.ports.len(), channels);
}

} // verus!
