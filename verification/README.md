# voice_assistant

A voice assistant: it listens to the microphone, recognises what was said, and types
it into the window that has the focus.

- `src/` is the library, verified with Verus: the queue of samples, the format and
  the packets of the capture device, the resampler, the gain control, the speech
  detector, the pipeline around them, the audio engine, the collection of phrases,
  and the decisions about the recogniser and the keyboard.
- `app/` is the program around it: the calls into the audio system, the recogniser
  and the keyboard, the threads, and the floating-point arithmetic.
- `tests/` holds the library's tests.

Samples are carried through the library as the bit patterns of single-precision
numbers.  Parts of the program that do something outside the library are sessions: each
step is told what happened, and answers with what to do next.

Verus does not see `app/`.  It tests what a function of the library requires before it
calls it.
