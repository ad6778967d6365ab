# AES67 virtual sound card

A virtual sound card for Linux: it receives AES67 streams, which are announced
with session descriptions and sent as RTP packets, and plays them out on the
ports of an audio system, in time with a clock that follows the precision time
protocol.

- `src/` is the library. It decides what is done, and every function of it is
  verified with Verus against its contract. Calls into other crates (RTP
  headers, session descriptions, regular expressions, the identity of a clock)
  stand behind small functions whose contracts are believed; each says in its
  comment what it claims.
- `app/` is the program around it: sockets, shared memory, the key value store,
  the web server, the tasks of the clock and the JACK client.
- `tests/` runs the library.

Some properties that hold of the library as a whole, each with a proof:

- What is read from the playout buffer is what was received
  (`audio_buffer::lemma_read_returns_what_was_inserted`).
- Packets that come out of order are put back into order, and playout goes on
  after a loss (`sequence_buffer::lemma_reordering_is_corrected`,
  `sequence_buffer::lemma_missing_packets_are_given_up`,
  `sequence_buffer::lemma_playout_follows_the_stream`).
- A session that was announced is found when it is removed
  (`discovery::lemma_removal_undoes_announcement`).
- A receiver whose channels were reserved finds ports for them, and deleting it
  gives them back (`receivers::lemma_reserved_channels_have_ports`,
  `receivers::lemma_delete_undoes_create`).
- Each sample is played out at the time at which it is due
  (`playout::lemma_samples_keep_their_time`).
- What is stored when a receiver is created is removed when it is deleted
  (`status::lemma_deletion_covers_creation`).
