# event_executable

An event system that steps executable pipelines. Each round it reads the next
executable named by every pipeline, raises the events those executables stand
for, and hands each pipeline's resources to the systems that react to the
event its pipeline raised.

- `src/` is the verified library: the pipelines and the pipeline buffer, the
  components (event reactors, executable events, pipeline resources), and
  `ExecutionRound`, which holds every decision of a round, with the laws that
  relate them. Entities, events and programs are known to it by integers.
- `app/` wires the library into the program registry and ECS world: it
  resolves resources and queries, numbers events and programs, reports what it
  reads to an `ExecutionRound`, and carries out what the round decides.
